//! Taking rows out of a chunk.

use crate::chunk::{
    column_views, row_views, AudioFields, Chunk, ChunkView, TimeColumn, TimeColumnView,
};
use crate::select::select;
use crate::time::AbsoluteTimeRange;
use vstd::prelude::*;

verus! {

/// A time column with the times whose flag is set.
pub open spec fn sliced_column(column: TimeColumnView, flags: Seq<bool>) -> TimeColumnView {
    TimeColumnView { timeline: column.timeline, times: select(column.times, flags) }
}

/// The rows of a chunk whose flag is set, as a chunk of their own.
pub open spec fn sliced(chunk: ChunkView, flags: Seq<bool>, id: u128) -> ChunkView {
    ChunkView {
        id,
        entity_path: chunk.entity_path,
        timelines: chunk.timelines.map_values(|c: TimeColumnView| sliced_column(c, flags)),
        rows: select(chunk.rows, flags),
    }
}

/// The times of a chunk's rows on `timeline`, looking at the first `n` of its time columns.
pub open spec fn times_on(chunk: ChunkView, timeline: Seq<char>, n: nat) -> Option<Seq<i64>>
    decreases n,
{
    if n == 0 {
        None
    } else {
        match times_on(chunk, timeline, (n - 1) as nat) {
            Some(times) => Some(times),
            None => if chunk.timelines[n - 1].timeline == timeline {
                Some(chunk.timelines[n - 1].times)
            } else {
                None
            },
        }
    }
}

/// The times that lie in `range`.
pub open spec fn in_range(times: Seq<i64>, range: AbsoluteTimeRange) -> Seq<bool> {
    times.map_values(|t: i64| range.holds(t as int))
}

/// The times before `range`.
pub open spec fn before_range(times: Seq<i64>, range: AbsoluteTimeRange) -> Seq<bool> {
    times.map_values(|t: i64| t < range.min)
}

/// The times after `range`.
pub open spec fn after_range(times: Seq<i64>, range: AbsoluteTimeRange) -> Seq<bool> {
    times.map_values(|t: i64| range.min <= t && range.max < t)
}

/// Whether a chunk has a row in `range` on `timeline`.
pub open spec fn touched(chunk: ChunkView, timeline: Seq<char>, range: AbsoluteTimeRange) -> bool {
    times_on(chunk, timeline, chunk.timelines.len()) matches Some(times) && in_range(
        times,
        range,
    ).contains(true)
}

/// What is left of a chunk when its rows in `range` are dropped: the rows before, and the rows
/// after, each as a chunk of its own, under identifiers counted up from `id`.
pub open spec fn leftovers(
    chunk: ChunkView,
    timeline: Seq<char>,
    range: AbsoluteTimeRange,
    id: int,
) -> Seq<ChunkView> {
    let times = times_on(chunk, timeline, chunk.timelines.len())->0;
    let before = before_range(times, range);
    let after = after_range(times, range);
    let head = if before.contains(true) {
        seq![sliced(chunk, before, id as u128)]
    } else {
        Seq::empty()
    };
    let tail = if after.contains(true) {
        seq![sliced(chunk, after, (id + head.len()) as u128)]
    } else {
        Seq::empty()
    };
    head + tail
}

/// The times of a chunk's rows on `timeline`.
pub fn find_times<'a>(chunk: &'a Chunk, timeline: &str) -> (r: Option<&'a Vec<i64>>)
    ensures
        match r {
            Some(times) => times_on(chunk@, timeline@, chunk@.timelines.len()) == Some(times@),
            None => times_on(chunk@, timeline@, chunk@.timelines.len()) is None,
        },
        chunk@.wf() ==> (r matches Some(times) ==> times@.len() == chunk.rows@.len()),
{
    let wanted = timeline.to_owned();
    let mut i: usize = 0;
    while i < chunk.timelines.len()
        invariant
            i <= chunk.timelines@.len(),
            wanted@ == timeline@,
            times_on(chunk@, timeline@, i as nat) is None,
        decreases chunk.timelines@.len() - i,
    {
        let column = &chunk.timelines[i];
        assert(chunk@.timelines[i as int] == column@);
        if column.timeline == wanted {
            proof {
                lemma_times_on_first(chunk@, timeline@, (i + 1) as nat, chunk@.timelines.len());
            }
            return Some(&column.times);
        }
        i = i + 1;
    }
    None
}

proof fn lemma_times_on_first(chunk: ChunkView, timeline: Seq<char>, n: nat, m: nat)
    requires
        n <= m <= chunk.timelines.len(),
        times_on(chunk, timeline, n) is Some,
    ensures
        times_on(chunk, timeline, m) == times_on(chunk, timeline, n),
    decreases m,
{
    if n < m {
        lemma_times_on_first(chunk, timeline, n, (m - 1) as nat);
    }
}

fn select_times(times: &Vec<i64>, flags: &Vec<bool>) -> (r: Vec<i64>)
    requires
        times@.len() == flags@.len(),
    ensures
        r@ == select(times@, flags@),
{
    let mut out: Vec<i64> = Vec::new();
    let mut i: usize = 0;
    while i < times.len()
        invariant
            i <= times@.len(),
            times@.len() == flags@.len(),
            out@ == select(times@.take(i as int), flags@),
        decreases times@.len() - i,
    {
        assert(times@.take(i + 1).drop_last() =~= times@.take(i as int));
        if flags[i] {
            out.push(times[i]);
        }
        i = i + 1;
    }
    assert(times@.take(i as int) =~= times@);
    out
}

proof fn lemma_select_len<A, B>(a: Seq<A>, b: Seq<B>, flags: Seq<bool>)
    requires
        a.len() == b.len(),
    ensures
        select(a, flags).len() == select(b, flags).len(),
    decreases a.len(),
{
    if a.len() > 0 {
        lemma_select_len(a.drop_last(), b.drop_last(), flags);
    }
}

/// The rows of a chunk whose flag is set, as a chunk of their own.
pub fn slice_chunk(chunk: &Chunk, flags: &Vec<bool>, id: u128) -> (r: Chunk)
    requires
        chunk@.wf(),
        flags@.len() == chunk.rows@.len(),
    ensures
        r@ == sliced(chunk@, flags@, id),
        r@.wf(),
{
    let mut rows: Vec<AudioFields> = Vec::new();
    let mut i: usize = 0;
    while i < chunk.rows.len()
        invariant
            i <= chunk.rows@.len(),
            flags@.len() == chunk.rows@.len(),
            row_views(rows@) == select(chunk@.rows.take(i as int), flags@),
        decreases chunk.rows@.len() - i,
    {
        assert(chunk@.rows.take(i + 1).drop_last() =~= chunk@.rows.take(i as int));
        if flags[i] {
            let row = chunk.rows[i].clone();
            assert(row@ == chunk@.rows[i as int]);
            let ghost so_far = rows@;
            rows.push(row);
            assert(row_views(rows@) =~= row_views(so_far).push(row@));
        }
        i = i + 1;
    }
    assert(chunk@.rows.take(i as int) =~= chunk@.rows);
    let mut timelines: Vec<TimeColumn> = Vec::new();
    let mut t: usize = 0;
    let ghost wanted = sliced(chunk@, flags@, id).timelines;
    while t < chunk.timelines.len()
        invariant
            t <= chunk.timelines@.len(),
            chunk@.wf(),
            flags@.len() == chunk.rows@.len(),
            wanted == sliced(chunk@, flags@, id).timelines,
            column_views(timelines@) == wanted.take(t as int),
        decreases chunk.timelines@.len() - t,
    {
        let column = &chunk.timelines[t];
        assert(chunk@.timelines[t as int] == column@);
        let cut = TimeColumn {
            timeline: column.timeline.clone(),
            times: select_times(&column.times, flags),
        };
        assert(cut@ == wanted[t as int]);
        let ghost so_far = timelines@;
        timelines.push(cut);
        assert(column_views(timelines@) =~= column_views(so_far).push(cut@));
        t = t + 1;
        assert(column_views(timelines@) =~= wanted.take(t as int));
    }
    assert(wanted.take(t as int) =~= wanted);
    let out = Chunk { id, entity_path: chunk.entity_path.clone(), timelines, rows };
    proof {
        assert forall|k: int| 0 <= k < out@.timelines.len() implies (#[trigger]
        out@.timelines[k]).times.len() == out@.rows.len() by {
            assert(out@.timelines[k] == sliced_column(chunk@.timelines[k], flags@));
            lemma_select_len(chunk@.timelines[k].times, chunk@.rows, flags@);
        }
    }
    out
}

/// Where the rows of a chunk lie relative to a range.
pub struct RangeFlags {
    pub before: Vec<bool>,
    pub after: Vec<bool>,
    pub any_before: bool,
    pub any_inside: bool,
    pub any_after: bool,
}

/// Tells of each time whether it lies before, in or after a range.
pub fn range_flags(times: &Vec<i64>, range: AbsoluteTimeRange) -> (r: RangeFlags)
    ensures
        r.before@ == before_range(times@, range),
        r.after@ == after_range(times@, range),
        r.any_before == before_range(times@, range).contains(true),
        r.any_inside == in_range(times@, range).contains(true),
        r.any_after == after_range(times@, range).contains(true),
{
    let mut before: Vec<bool> = Vec::new();
    let mut after: Vec<bool> = Vec::new();
    let mut any_before: bool = false;
    let mut any_inside: bool = false;
    let mut any_after: bool = false;
    let mut i: usize = 0;
    while i < times.len()
        invariant
            i <= times@.len(),
            before@ == before_range(times@, range).take(i as int),
            after@ == after_range(times@, range).take(i as int),
            any_before <==> exists|k: int| 0 <= k < i && #[trigger] before_range(times@, range)[k],
            any_inside <==> exists|k: int| 0 <= k < i && #[trigger] in_range(times@, range)[k],
            any_after <==> exists|k: int| 0 <= k < i && #[trigger] after_range(times@, range)[k],
        decreases times@.len() - i,
    {
        let t: i64 = times[i];
        let is_before: bool = t < range.min;
        let is_after: bool = !is_before && range.max < t;
        let is_inside: bool = !is_before && !is_after;
        assert(before_range(times@, range)[i as int] == is_before);
        assert(in_range(times@, range)[i as int] == is_inside);
        assert(after_range(times@, range)[i as int] == is_after);
        before.push(is_before);
        after.push(is_after);
        any_before = any_before || is_before;
        any_inside = any_inside || is_inside;
        any_after = any_after || is_after;
        i = i + 1;
        assert(before@ =~= before_range(times@, range).take(i as int));
        assert(after@ =~= after_range(times@, range).take(i as int));
    }
    assert(before@ =~= before_range(times@, range));
    assert(after@ =~= after_range(times@, range));
    proof {
        lemma_contains_true(before_range(times@, range));
        lemma_contains_true(in_range(times@, range));
        lemma_contains_true(after_range(times@, range));
    }
    RangeFlags { before, after, any_before, any_inside, any_after }
}

proof fn lemma_contains_true(flags: Seq<bool>)
    ensures
        flags.contains(true) <==> exists|k: int| 0 <= k < flags.len() && #[trigger] flags[k],
{
    if flags.contains(true) {
        let k = choose|k: int| 0 <= k < flags.len() && flags[k] == true;
        assert(flags[k]);
    }
    if exists|k: int| 0 <= k < flags.len() && #[trigger] flags[k] {
        let k = choose|k: int| 0 <= k < flags.len() && #[trigger] flags[k];
        assert(flags[k] == true);
    }
}

} // verus!
