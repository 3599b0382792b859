//! Which times each chunk covers on each timeline.

use crate::id_map::{has_key, lemma_upsert, lookup, IdMap};
use crate::manifest::{ChunkRangeView, RrdManifest};
use crate::time::AbsoluteTimeRange;
use vstd::prelude::*;

verus! {

/// The times that a chunk covers on one timeline.
#[derive(Debug)]
pub struct TimelineRange {
    pub timeline: String,
    pub range: AbsoluteTimeRange,
}

impl Clone for TimelineRange {
    fn clone(&self) -> (r: Self)
        ensures
            r == *self,
    {
        TimelineRange { timeline: self.timeline.clone(), range: self.range }
    }
}

/// The range listed for `timeline`, looking at the first `n` of `list`.
pub open spec fn listed_range(
    list: Seq<TimelineRange>,
    timeline: Seq<char>,
    n: nat,
) -> Option<AbsoluteTimeRange>
    decreases n,
{
    if n == 0 {
        None
    } else {
        match listed_range(list, timeline, (n - 1) as nat) {
            Some(range) => Some(range),
            None => if list[n - 1].timeline@ == timeline {
                Some(list[n - 1].range)
            } else {
                None
            },
        }
    }
}

/// No timeline is listed twice.
pub open spec fn distinct_timelines(list: Seq<TimelineRange>) -> bool {
    forall|i: int, j: int|
        0 <= i < j < list.len() ==> (#[trigger] list[i]).timeline@ != (#[trigger] list[j]).timeline@
}

/// The smallest range that covers those of the first `n` of `ranges` that belong to a chunk and
/// a timeline.
pub open spec fn chunk_span(
    ranges: Seq<ChunkRangeView>,
    chunk_id: u128,
    timeline: Seq<char>,
    n: nat,
) -> Option<AbsoluteTimeRange>
    decreases n,
{
    if n == 0 {
        None
    } else {
        let before = chunk_span(ranges, chunk_id, timeline, (n - 1) as nat);
        if ranges[n - 1].chunk_id == chunk_id && ranges[n - 1].timeline == timeline {
            match before {
                Some(range) => Some(range.spec_union(ranges[n - 1].range)),
                None => Some(ranges[n - 1].range),
            }
        } else {
            before
        }
    }
}

/// Whether one of the first `n` of `ranges` belongs to a chunk.
pub open spec fn has_range(ranges: Seq<ChunkRangeView>, chunk_id: u128, n: nat) -> bool {
    exists|i: int| 0 <= i < n && (#[trigger] ranges[i]).chunk_id == chunk_id
}

/// What an index tells of a chunk on a timeline.
pub open spec fn indexed_range(
    index: Seq<(u128, Vec<TimelineRange>)>,
    chunk_id: u128,
    timeline: Seq<char>,
) -> Option<AbsoluteTimeRange> {
    match lookup(index, chunk_id) {
        Some(list) => listed_range(list@, timeline, list@.len()),
        None => None,
    }
}

/// Whether an index tells what the first `n` of `ranges` add up to.
pub open spec fn indexes(
    index: Seq<(u128, Vec<TimelineRange>)>,
    ranges: Seq<ChunkRangeView>,
    n: nat,
) -> bool {
    &&& forall|id: u128| #[trigger] has_key(index, id) <==> has_range(ranges, id, n)
    &&& forall|id: u128, timeline: Seq<char>| #[trigger]
        indexed_range(index, id, timeline) == chunk_span(ranges, id, timeline, n)
    &&& forall|id: u128| #[trigger]
        lookup(index, id) matches Some(list) ==> distinct_timelines(list@)
}

proof fn lemma_listed_range(list: Seq<TimelineRange>, timeline: Seq<char>, n: nat)
    requires
        n <= list.len(),
    ensures
        listed_range(list, timeline, n) is None <==> forall|i: int|
            0 <= i < n ==> (#[trigger] list[i]).timeline@ != timeline,
        listed_range(list, timeline, n) matches Some(range) ==> exists|i: int|
            0 <= i < n && (#[trigger] list[i]).timeline@ == timeline && list[i].range == range,
    decreases n,
{
    if n > 0 {
        lemma_listed_range(list, timeline, (n - 1) as nat);
        if list[n - 1].timeline@ == timeline {
            assert(list[n - 1].timeline@ == timeline);
        }
    }
}

proof fn lemma_listed_range_at(list: Seq<TimelineRange>, i: int)
    requires
        0 <= i < list.len(),
        distinct_timelines(list),
    ensures
        listed_range(list, list[i].timeline@, list.len()) == Some(list[i].range),
{
    lemma_listed_range(list, list[i].timeline@, list.len());
    assert(list[i].timeline@ == list[i].timeline@);
}

/// The range listed for `timeline`.
pub fn find_range(list: &Vec<TimelineRange>, timeline: &str) -> (r: Option<AbsoluteTimeRange>)
    ensures
        r == listed_range(list@, timeline@, list@.len()),
{
    let wanted = timeline.to_owned();
    let mut found: Option<AbsoluteTimeRange> = None;
    let mut i: usize = 0;
    while i < list.len()
        invariant
            i <= list@.len(),
            wanted@ == timeline@,
            found == listed_range(list@, timeline@, i as nat),
        decreases list@.len() - i,
    {
        if found.is_none() && list[i].timeline == wanted {
            found = Some(list[i].range);
        }
        i = i + 1;
    }
    found
}

/// `list` with `range` added to what it lists for `timeline`.
fn widened(list: &Vec<TimelineRange>, timeline: &String, range: AbsoluteTimeRange) -> (r: Vec<
    TimelineRange,
>)
    requires
        distinct_timelines(list@),
    ensures
        distinct_timelines(r@),
        listed_range(r@, timeline@, r@.len()) == Some(
            match listed_range(list@, timeline@, list@.len()) {
                Some(before) => before.spec_union(range),
                None => range,
            },
        ),
        forall|t: Seq<char>|
            t != timeline@ ==> #[trigger] listed_range(r@, t, r@.len()) == listed_range(
                list@,
                t,
                list@.len(),
            ),
{
    let mut out: Vec<TimelineRange> = Vec::new();
    let mut placed: bool = false;
    let mut i: usize = 0;
    while i < list.len()
        invariant
            i <= list@.len(),
            distinct_timelines(list@),
            out@.len() == i,
            forall|k: int|
                0 <= k < i ==> (#[trigger] out@[k]).timeline == list@[k].timeline && out@[k].range
                    == (if list@[k].timeline@ == timeline@ {
                    list@[k].range.spec_union(range)
                } else {
                    list@[k].range
                }),
            placed <==> exists|k: int| 0 <= k < i && (#[trigger] list@[k]).timeline@ == timeline@,
        decreases list@.len() - i,
    {
        let entry = &list[i];
        if entry.timeline == *timeline {
            out.push(
                TimelineRange { timeline: entry.timeline.clone(), range: entry.range.union(range) },
            );
            placed = true;
            assert(list@[i as int].timeline@ == timeline@);
        } else {
            out.push(entry.clone());
        }
        i = i + 1;
    }
    let ghost merged = out@;
    assert(distinct_timelines(merged)) by {
        assert forall|a: int, b: int| 0 <= a < b < merged.len() implies (#[trigger]
        merged[a]).timeline@ != (#[trigger] merged[b]).timeline@ by {
            assert(list@[a].timeline@ != list@[b].timeline@);
        }
    }
    if !placed {
        out.push(TimelineRange { timeline: timeline.clone(), range });
    }
    proof {
        assert forall|t: Seq<char>| t != timeline@ implies #[trigger] listed_range(
            out@,
            t,
            out@.len(),
        ) == listed_range(list@, t, list@.len()) by {
            lemma_listed_range(out@, t, out@.len());
            lemma_listed_range(list@, t, list@.len());
            if listed_range(list@, t, list@.len()) is Some {
                let k = choose|k: int|
                    0 <= k < list@.len() && (#[trigger] list@[k]).timeline@ == t && list@[k].range
                        == listed_range(list@, t, list@.len())->0;
                assert(out@[k].timeline@ == t);
                lemma_listed_range_at(out@, k);
            } else if listed_range(out@, t, out@.len()) is Some {
                let k = choose|k: int|
                    0 <= k < out@.len() && (#[trigger] out@[k]).timeline@ == t && out@[k].range
                        == listed_range(out@, t, out@.len())->0;
                assert(k < list@.len());
                assert(list@[k].timeline@ == t);
            }
        }
        lemma_listed_range(list@, timeline@, list@.len());
        if placed {
            let k = choose|k: int|
                0 <= k < list@.len() && (#[trigger] list@[k]).timeline@ == timeline@;
            lemma_listed_range_at(list@, k);
            assert(out@[k].timeline@ == timeline@);
            lemma_listed_range_at(out@, k);
        } else {
            lemma_listed_range_at(out@, out@.len() - 1);
        }
    }
    out
}

/// Adds up, for each chunk and timeline, the ranges that a manifest lists.
pub fn build_timeline_ranges(manifest: &RrdManifest) -> (index: IdMap<Vec<TimelineRange>>)
    ensures
        index.wf(),
        indexes(index@, manifest@.ranges, manifest@.ranges.len()),
{
    let ghost ranges = manifest@.ranges;
    let mut index: IdMap<Vec<TimelineRange>> = IdMap::new();
    let mut i: usize = 0;
    while i < manifest.ranges.len()
        invariant
            i <= manifest.ranges@.len(),
            ranges == manifest@.ranges,
            index.wf(),
            indexes(index@, ranges, i as nat),
        decreases manifest.ranges@.len() - i,
    {
        let entry = &manifest.ranges[i];
        assert(ranges[i as int] == entry@);
        let ghost before = index@;
        let empty: Vec<TimelineRange> = Vec::new();
        let list = match index.get(entry.chunk_id) {
            Some(list) => widened(list, &entry.timeline, entry.range),
            None => widened(&empty, &entry.timeline, entry.range),
        };
        proof {
            IdMap::lemma_wf_unique(&index);
            lemma_upsert(before, entry.chunk_id, list);
        }
        index.insert(entry.chunk_id, list);
        proof {
            let n = (i + 1) as nat;
            assert forall|id: u128| #[trigger] has_key(index@, id) <==> has_range(
                ranges,
                id,
                n,
            ) by {
                if id == entry.chunk_id {
                    assert(ranges[i as int].chunk_id == id);
                } else {
                    assert(has_key(index@, id) == has_key(before, id));
                    if has_range(ranges, id, n) {
                        let k = choose|k: int| 0 <= k < n && (#[trigger] ranges[k]).chunk_id == id;
                        assert(k < i);
                    }
                    if has_range(ranges, id, i as nat) {
                        let k = choose|k: int|
                            0 <= k < i && (#[trigger] ranges[k]).chunk_id == id;
                        assert(ranges[k].chunk_id == id);
                    }
                }
            }
            assert forall|id: u128, timeline: Seq<char>| #[trigger]
                indexed_range(index@, id, timeline) == chunk_span(ranges, id, timeline, n) by {
                assert(indexed_range(before, id, timeline) == chunk_span(
                    ranges,
                    id,
                    timeline,
                    i as nat,
                ));
                if id != entry.chunk_id {
                    assert(lookup(index@, id) == lookup(before, id));
                } else {
                    assert(lookup(index@, id) == Some(list));
                }
            }
            assert forall|id: u128| #[trigger] lookup(index@, id) is Some implies distinct_timelines(
                lookup(index@, id)->0@,
            ) by {
                if id != entry.chunk_id {
                    assert(lookup(index@, id) == lookup(before, id));
                }
            }
        }
        i = i + 1;
    }
    index
}

} // verus!
