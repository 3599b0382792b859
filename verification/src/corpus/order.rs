//! Putting rows in time order and dropping repeated ones.

use crate::corpus::row::CorpusChunkRow;
use vstd::hash_map::StringHashMap;
use vstd::prelude::*;

verus! {

/// Later rows do not start earlier.
pub open spec fn in_order(rows: Seq<CorpusChunkRow>) -> bool {
    forall|i: int, j: int|
        0 <= i < j < rows.len() ==> (#[trigger] rows[i]).chunk_start_ns <= (#[trigger]
        rows[j]).chunk_start_ns
}

/// The rows that start at `start`, in the order in which they stand.
pub open spec fn starting_at(rows: Seq<CorpusChunkRow>, start: i64) -> Seq<CorpusChunkRow>
    decreases rows.len(),
{
    if rows.len() == 0 {
        Seq::empty()
    } else if rows[0].chunk_start_ns == start {
        seq![rows[0]] + starting_at(rows.drop_first(), start)
    } else {
        starting_at(rows.drop_first(), start)
    }
}

/// `rows`, which are in order, with `row` before the first one that does not start earlier.
pub open spec fn placed_in_order(row: CorpusChunkRow, rows: Seq<CorpusChunkRow>) -> Seq<
    CorpusChunkRow,
>
    decreases rows.len(),
{
    if rows.len() == 0 || row.chunk_start_ns <= rows[0].chunk_start_ns {
        seq![row] + rows
    } else {
        seq![rows[0]] + placed_in_order(row, rows.drop_first())
    }
}

/// `rows` by start time; rows with the same start time keep their order.
pub open spec fn by_start(rows: Seq<CorpusChunkRow>) -> Seq<CorpusChunkRow>
    decreases rows.len(),
{
    if rows.len() == 0 {
        Seq::empty()
    } else {
        placed_in_order(rows[0], by_start(rows.drop_first()))
    }
}

proof fn lemma_placed_in_order(row: CorpusChunkRow, rows: Seq<CorpusChunkRow>)
    requires
        in_order(rows),
    ensures
        in_order(placed_in_order(row, rows)),
        placed_in_order(row, rows).len() == rows.len() + 1,
        forall|i: int|
            0 <= i <= rows.len() ==> (#[trigger] placed_in_order(row, rows)[i]) == row
                || rows.contains(placed_in_order(row, rows)[i]),
        forall|start: i64| #[trigger]
            starting_at(placed_in_order(row, rows), start) == (if row.chunk_start_ns == start {
                seq![row] + starting_at(rows, start)
            } else {
                starting_at(rows, start)
            }),
    decreases rows.len(),
{
    let placed = placed_in_order(row, rows);
    if rows.len() == 0 || row.chunk_start_ns <= rows[0].chunk_start_ns {
        assert(placed.drop_first() =~= rows);
        assert forall|i: int| 0 <= i <= rows.len() implies (#[trigger] placed[i]) == row
            || rows.contains(placed[i]) by {
            if i > 0 {
                assert(placed[i] == rows[i - 1]);
            }
        }
    } else {
        let rest = rows.drop_first();
        lemma_placed_in_order(row, rest);
        let inner = placed_in_order(row, rest);
        assert(placed.drop_first() =~= inner);
        assert forall|i: int| 0 <= i <= rows.len() implies (#[trigger] placed[i]) == row
            || rows.contains(placed[i]) by {
            if i == 0 {
                assert(placed[0] == rows[0]);
            } else {
                assert(placed[i] == inner[i - 1]);
                if inner[i - 1] != row {
                    let k = choose|k: int| 0 <= k < rest.len() && rest[k] == inner[i - 1];
                    assert(rows[k + 1] == placed[i]);
                }
            }
        }
        assert forall|i: int, j: int| 0 <= i < j < placed.len() implies (#[trigger]
        placed[i]).chunk_start_ns <= (#[trigger] placed[j]).chunk_start_ns by {
            assert(placed[j] == inner[j - 1]);
            if i > 0 {
                assert(placed[i] == inner[i - 1]);
            } else if inner[j - 1] != row {
                let k = choose|k: int| 0 <= k < rest.len() && rest[k] == inner[j - 1];
                assert(rows[k + 1] == placed[j]);
            }
        }
        assert forall|start: i64| #[trigger]
            starting_at(placed, start) == (if row.chunk_start_ns == start {
                seq![row] + starting_at(rows, start)
            } else {
                starting_at(rows, start)
            }) by {
            assert(starting_at(inner, start) == (if row.chunk_start_ns == start {
                seq![row] + starting_at(rest, start)
            } else {
                starting_at(rest, start)
            }));
        }
    }
}

/// Ordering by start time puts rows in order, and keeps the rows of each start time and their
/// order.
pub proof fn ordering_is_stable(rows: Seq<CorpusChunkRow>)
    ensures
        in_order(by_start(rows)),
        by_start(rows).len() == rows.len(),
        forall|start: i64| #[trigger]
            starting_at(by_start(rows), start) == starting_at(rows, start),
    decreases rows.len(),
{
    if rows.len() > 0 {
        ordering_is_stable(rows.drop_first());
        lemma_placed_in_order(rows[0], by_start(rows.drop_first()));
    }
}

proof fn lemma_starting_at_member(rows: Seq<CorpusChunkRow>, start: i64, i: int)
    requires
        0 <= i < rows.len(),
        rows[i].chunk_start_ns == start,
    ensures
        starting_at(rows, start).contains(rows[i]),
    decreases rows.len(),
{
    let rest = starting_at(rows.drop_first(), start);
    if i == 0 {
        assert(starting_at(rows, start)[0] == rows[0]);
    } else {
        lemma_starting_at_member(rows.drop_first(), start, i - 1);
        let k = choose|k: int| 0 <= k < rest.len() && rest[k] == rows[i];
        if rows[0].chunk_start_ns == start {
            assert(starting_at(rows, start)[k + 1] == rows[i]);
        }
    }
}

proof fn lemma_starting_at_from(rows: Seq<CorpusChunkRow>, start: i64)
    ensures
        forall|k: int|
            0 <= k < starting_at(rows, start).len() ==> rows.contains(
                #[trigger] starting_at(rows, start)[k],
            ) && starting_at(rows, start)[k].chunk_start_ns == start,
    decreases rows.len(),
{
    if rows.len() > 0 {
        let rest = rows.drop_first();
        lemma_starting_at_from(rest, start);
        assert forall|k: int| 0 <= k < starting_at(rows, start).len() implies rows.contains(
            #[trigger] starting_at(rows, start)[k],
        ) && starting_at(rows, start)[k].chunk_start_ns == start by {
            let picked = if rows[0].chunk_start_ns == start {
                k - 1
            } else {
                k
            };
            if picked < 0 {
                assert(starting_at(rows, start)[k] == rows[0]);
            } else {
                assert(starting_at(rows, start)[k] == starting_at(rest, start)[picked]);
                assert(rest.contains(starting_at(rest, start)[picked]));
                let m = choose|m: int|
                    0 <= m < rest.len() && rest[m] == starting_at(rest, start)[picked];
                assert(rows[m + 1] == starting_at(rows, start)[k]);
            }
        }
    }
}

/// Two sequences of rows that are in order and hold the same rows of each start time, in the
/// same order, are the same.
pub proof fn order_is_unique(a: Seq<CorpusChunkRow>, b: Seq<CorpusChunkRow>)
    requires
        in_order(a),
        in_order(b),
        forall|start: i64| #[trigger] starting_at(a, start) == starting_at(b, start),
    ensures
        a == b,
    decreases a.len(),
{
    if a.len() == 0 {
        if b.len() > 0 {
            lemma_starting_at_member(b, b[0].chunk_start_ns, 0);
            assert(starting_at(a, b[0].chunk_start_ns).len() == 0);
        }
        assert(a =~= b);
    } else {
        let m = a[0].chunk_start_ns;
        lemma_starting_at_member(a, m, 0);
        assert(starting_at(b, m) == starting_at(a, m));
        assert(b.len() > 0);
        let n = b[0].chunk_start_ns;
        lemma_starting_at_member(b, n, 0);
        assert(starting_at(a, n) == starting_at(b, n));
        lemma_starting_at_from(a, n);
        lemma_starting_at_from(b, m);
        let in_a = starting_at(a, n)[0];
        let in_b = starting_at(b, m)[0];
        assert(a.contains(in_a));
        assert(b.contains(in_b));
        assert(n >= m);
        assert(m >= n);
        assert(starting_at(a, m)[0] == a[0]);
        assert(starting_at(b, m)[0] == b[0]);
        assert(a[0] == b[0]);
        assert forall|start: i64| #[trigger]
            starting_at(a.drop_first(), start) == starting_at(b.drop_first(), start) by {
            assert(starting_at(a, start) == starting_at(b, start));
            if start == m {
                assert(starting_at(a.drop_first(), start) =~= starting_at(a, start).drop_first());
                assert(starting_at(b.drop_first(), start) =~= starting_at(b, start).drop_first());
            }
        }
        order_is_unique(a.drop_first(), b.drop_first());
        assert(a =~= seq![a[0]] + a.drop_first());
        assert(b =~= seq![b[0]] + b.drop_first());
    }
}

/// Ordering rows by start time neither loses nor invents a row.
pub proof fn ordering_keeps_rows(rows: Seq<CorpusChunkRow>, row: CorpusChunkRow)
    ensures
        by_start(rows).contains(row) <==> rows.contains(row),
{
    let start = row.chunk_start_ns;
    ordering_is_stable(rows);
    let sorted = by_start(rows);
    assert(starting_at(sorted, start) == starting_at(rows, start));
    lemma_starting_at_from(sorted, start);
    lemma_starting_at_from(rows, start);
    if rows.contains(row) {
        let i = choose|i: int| 0 <= i < rows.len() && rows[i] == row;
        lemma_starting_at_member(rows, start, i);
        let k = choose|k: int|
            0 <= k < starting_at(rows, start).len() && starting_at(rows, start)[k] == row;
        assert(sorted.contains(starting_at(sorted, start)[k]));
    }
    if sorted.contains(row) {
        let i = choose|i: int| 0 <= i < sorted.len() && sorted[i] == row;
        lemma_starting_at_member(sorted, start, i);
        let k = choose|k: int|
            0 <= k < starting_at(sorted, start).len() && starting_at(sorted, start)[k] == row;
        assert(rows.contains(starting_at(rows, start)[k]));
    }
}

/// `slice::sort_by_key` of std is a stable sort: afterwards the elements stand in the order of
/// their keys, and elements with equal keys stand as they did before.
#[verifier::external_body]
fn sort_by_start(rows: &mut Vec<CorpusChunkRow>)
    ensures
        in_order(final(rows)@),
        forall|start: i64| #[trigger]
            starting_at(final(rows)@, start) == starting_at(old(rows)@, start),
{
    rows.sort_by_key(|r| r.chunk_start_ns);
}

/// Puts rows in the order of their start times; rows with the same start time keep their order.
pub fn order_rows(rows: &mut Vec<CorpusChunkRow>)
    ensures
        final(rows)@ == by_start(old(rows)@),
{
    let ghost before = rows@;
    sort_by_start(rows);
    proof {
        ordering_is_stable(before);
        assert forall|start: i64| #[trigger]
            starting_at(rows@, start) == starting_at(by_start(before), start) by {
            assert(starting_at(rows@, start) == starting_at(before, start));
        }
        order_is_unique(rows@, by_start(before));
    }
}

/// Whether one of `rows` has the chunk identifier `id`.
pub open spec fn has_identifier(rows: Seq<CorpusChunkRow>, id: Seq<char>) -> bool {
    exists|i: int| 0 <= i < rows.len() && (#[trigger] rows[i]).chunk_id_str@ == id
}

/// No two of `rows` have the same chunk identifier.
pub open spec fn distinct_identifiers(rows: Seq<CorpusChunkRow>) -> bool {
    forall|i: int, j: int|
        0 <= i < j < rows.len() ==> (#[trigger] rows[i]).chunk_id_str@ != (#[trigger]
        rows[j]).chunk_id_str@
}

/// `rows` without those whose chunk identifier an earlier row has.
pub open spec fn without_repeats(rows: Seq<CorpusChunkRow>) -> Seq<CorpusChunkRow>
    decreases rows.len(),
{
    if rows.len() == 0 {
        Seq::empty()
    } else if has_identifier(rows.drop_last(), rows.last().chunk_id_str@) {
        without_repeats(rows.drop_last())
    } else {
        without_repeats(rows.drop_last()).push(rows.last())
    }
}

/// Every row that is kept was there, in the same order, and of every chunk identifier that was
/// there exactly one row is kept.
pub proof fn repeats_are_kept_once(rows: Seq<CorpusChunkRow>)
    ensures
        without_repeats(rows).len() <= rows.len(),
        distinct_identifiers(without_repeats(rows)),
        in_order(rows) ==> in_order(without_repeats(rows)),
        forall|i: int|
            0 <= i < without_repeats(rows).len() ==> rows.contains(
                #[trigger] without_repeats(rows)[i],
            ),
        forall|id: Seq<char>| #[trigger]
            has_identifier(without_repeats(rows), id) <==> has_identifier(rows, id),
    decreases rows.len(),
{
    let kept = without_repeats(rows);
    if rows.len() > 0 {
        let before = rows.drop_last();
        repeats_are_kept_once(before);
        let kept_before = without_repeats(before);
        let n = rows.len() - 1;
        let last = rows[n].chunk_id_str@;
        assert forall|i: int| 0 <= i < kept.len() implies rows.contains(#[trigger] kept[i]) by {
            if i < kept_before.len() {
                assert(kept[i] == kept_before[i]);
                assert(before.contains(kept_before[i]));
                let m = choose|m: int| 0 <= m < before.len() && before[m] == kept_before[i];
                assert(rows[m] == kept[i]);
            } else {
                assert(kept[i] == rows[n]);
            }
        }
        assert forall|id: Seq<char>| #[trigger] has_identifier(kept, id) <==> has_identifier(
            rows,
            id,
        ) by {
            if has_identifier(rows, id) {
                let i = choose|i: int|
                    0 <= i < rows.len() && (#[trigger] rows[i]).chunk_id_str@ == id;
                if i < n {
                    assert(before[i].chunk_id_str@ == id);
                    assert(has_identifier(before, id));
                }
                if has_identifier(before, id) {
                    assert(has_identifier(kept_before, id));
                    let k = choose|k: int|
                        0 <= k < kept_before.len() && (#[trigger] kept_before[k]).chunk_id_str@
                            == id;
                    assert(kept[k] == kept_before[k]);
                } else {
                    assert(kept[kept.len() - 1] == rows[n]);
                }
            }
            if has_identifier(kept, id) {
                let k = choose|k: int|
                    0 <= k < kept.len() && (#[trigger] kept[k]).chunk_id_str@ == id;
                assert(rows.contains(kept[k]));
                let m = choose|m: int| 0 <= m < rows.len() && rows[m] == kept[k];
                assert(rows[m].chunk_id_str@ == id);
            }
        }
        if !has_identifier(before, last) {
            assert(!has_identifier(kept_before, last));
            assert forall|i: int, j: int| 0 <= i < j < kept.len() implies (#[trigger]
            kept[i]).chunk_id_str@ != (#[trigger] kept[j]).chunk_id_str@ by {
                assert(kept[i] == kept_before[i]);
                if j < kept_before.len() {
                    assert(kept[j] == kept_before[j]);
                }
            }
        }
        if in_order(rows) {
            assert(in_order(before)) by {
                assert forall|i: int, j: int| 0 <= i < j < before.len() implies (#[trigger]
                before[i]).chunk_start_ns <= (#[trigger] before[j]).chunk_start_ns by {
                    assert(before[i] == rows[i] && before[j] == rows[j]);
                }
            }
            assert forall|i: int, j: int| 0 <= i < j < kept.len() implies (#[trigger]
            kept[i]).chunk_start_ns <= (#[trigger] kept[j]).chunk_start_ns by {
                assert(kept[i] == kept_before[i]);
                if j < kept_before.len() {
                    assert(kept[j] == kept_before[j]);
                } else {
                    assert(before.contains(kept_before[i]));
                    let m = choose|m: int| 0 <= m < before.len() && before[m] == kept_before[i];
                    assert(rows[m] == kept[i]);
                    assert(kept[j] == rows[n]);
                }
            }
        }
    }
}

/// Drops the rows whose chunk identifier an earlier row has.
pub fn drop_repeats(rows: &Vec<CorpusChunkRow>) -> (r: Vec<CorpusChunkRow>)
    ensures
        r@ == without_repeats(rows@),
        forall|i: int, j: int|
            0 <= i < j < r@.len() ==> (#[trigger] r@[i]).chunk_id_str@ != (#[trigger]
            r@[j]).chunk_id_str@,
{
    let mut kept: Vec<CorpusChunkRow> = Vec::new();
    let mut seen: StringHashMap<bool> = StringHashMap::new();
    let mut i: usize = 0;
    while i < rows.len()
        invariant
            i <= rows@.len(),
            kept@ == without_repeats(rows@.take(i as int)),
            forall|id: Seq<char>| #[trigger]
                seen@.contains_key(id) <==> has_identifier(rows@.take(i as int), id),
        decreases rows@.len() - i,
    {
        let ghost before = rows@.take(i as int);
        let ghost now = rows@.take(i + 1);
        assert(now.drop_last() =~= before);
        let row = &rows[i];
        if !seen.contains_key(row.chunk_id_str.as_str()) {
            kept.push(row.clone());
            seen.insert(row.chunk_id_str.clone(), true);
        }
        proof {
            assert forall|id: Seq<char>| #[trigger]
                seen@.contains_key(id) <==> has_identifier(now, id) by {
                if has_identifier(before, id) {
                    let k = choose|k: int|
                        0 <= k < before.len() && (#[trigger] before[k]).chunk_id_str@ == id;
                    assert(now[k].chunk_id_str@ == id);
                }
                if id == row.chunk_id_str@ {
                    assert(now[i as int].chunk_id_str@ == id);
                }
                if has_identifier(now, id) && id != row.chunk_id_str@ {
                    let k = choose|k: int|
                        0 <= k < now.len() && (#[trigger] now[k]).chunk_id_str@ == id;
                    assert(before[k].chunk_id_str@ == id);
                }
            }
        }
        i = i + 1;
    }
    assert(rows@.take(i as int) =~= rows@);
    proof {
        repeats_are_kept_once(rows@);
    }
    kept
}

} // verus!
