//! What a manifest tells of chunks, told by their rows and times.

use crate::chunk::{
    all_components, AudioComponent, AudioFieldsView, Chunk, ChunkView, TimeColumnView,
};
use crate::manifest::{
    chunk_ranges, column_ranges, component_span, prepared, ranges_of_row, ranges_of_rows,
    ChunkRangeView, ComponentRangeView, ManifestRow, ManifestRowView, RawManifestView,
};
use vstd::prelude::*;

verus! {

/// A component lasts from the earliest to the latest time of the rows that have it, and there is
/// no span for one that no row has.
pub proof fn spans_reach_over_all_rows_with_the_component(
    times: Seq<i64>,
    rows: Seq<AudioFieldsView>,
    component: AudioComponent,
    n: nat,
)
    requires
        n <= rows.len(),
        n <= times.len(),
    ensures
        match component_span(times, rows, component, n) {
            None => forall|k: int| 0 <= k < n ==> !(#[trigger] rows[k]).has(component),
            Some(span) => {
                &&& forall|k: int|
                    0 <= k < n && (#[trigger] rows[k]).has(component) ==> span.min <= times[k]
                        <= span.max
                &&& exists|k: int|
                    0 <= k < n && (#[trigger] rows[k]).has(component) && times[k] == span.min
                &&& exists|k: int|
                    0 <= k < n && (#[trigger] rows[k]).has(component) && times[k] == span.max
            },
        },
    decreases n,
{
    if n > 0 {
        let m = (n - 1) as nat;
        spans_reach_over_all_rows_with_the_component(times, rows, component, m);
        if let Some(old) = component_span(times, rows, component, m) {
            let a = choose|k: int|
                0 <= k < m && (#[trigger] rows[k]).has(component) && times[k] == old.min;
            let b = choose|k: int|
                0 <= k < m && (#[trigger] rows[k]).has(component) && times[k] == old.max;
            assert(rows[a].has(component) && times[a] == old.min);
            assert(rows[b].has(component) && times[b] == old.max);
        }
        if rows[m as int].has(component) {
            assert(rows[m as int].has(component));
        }
    }
}

proof fn lemma_component_place(component: AudioComponent) -> (c: int)
    ensures
        0 <= c < all_components().len(),
        all_components()[c] == component,
{
    match component {
        AudioComponent::Codec => 0,
        AudioComponent::SampleRate => 1,
        AudioComponent::ChannelCount => 2,
        AudioComponent::Chunk => 3,
        AudioComponent::DurationSamples => 4,
        AudioComponent::SequenceNumber => 5,
        AudioComponent::Seekable => 6,
        AudioComponent::Discontinuity => 7,
    }
}

proof fn lemma_column(column: TimeColumnView, rows: Seq<AudioFieldsView>, n: nat)
    requires
        n <= all_components().len(),
    ensures
        forall|e: ComponentRangeView| #[trigger]
            column_ranges(column, rows, n).contains(e) <==> {
                &&& e.timeline == column.timeline
                &&& component_span(column.times, rows, e.component, rows.len()) == Some(e.range)
                &&& exists|c: int| 0 <= c < n && #[trigger] all_components()[c] == e.component
            },
    decreases n,
{
    let now = column_ranges(column, rows, n);
    if n > 0 {
        let m = (n - 1) as nat;
        lemma_column(column, rows, m);
        let before = column_ranges(column, rows, m);
        let last = all_components()[m as int];
        assert forall|e: ComponentRangeView| #[trigger] now.contains(e) <==> {
            &&& e.timeline == column.timeline
            &&& component_span(column.times, rows, e.component, rows.len()) == Some(e.range)
            &&& exists|c: int| 0 <= c < n && #[trigger] all_components()[c] == e.component
        } by {
            if before.contains(e) {
                let k = choose|k: int| 0 <= k < before.len() && before[k] == e;
                assert(now[k] == e);
            }
            if now.contains(e) && !before.contains(e) {
                let k = choose|k: int| 0 <= k < now.len() && now[k] == e;
                if k < before.len() {
                    assert(before[k] == e);
                }
                assert(all_components()[m as int] == e.component);
            }
            if component_span(column.times, rows, last, rows.len()) is Some && e.component == last
                && e.timeline == column.timeline && component_span(
                column.times,
                rows,
                last,
                rows.len(),
            ) == Some(e.range) {
                assert(now[before.len() as int] == e);
            }
        }
    }
}

proof fn lemma_chunk(chunk: ChunkView, n: nat)
    requires
        n <= chunk.timelines.len(),
    ensures
        forall|e: ComponentRangeView| #[trigger]
            chunk_ranges(chunk, n).contains(e) <==> exists|t: int|
                0 <= t < n && (#[trigger] chunk.timelines[t]).timeline == e.timeline
                    && component_span(
                    chunk.timelines[t].times,
                    chunk.rows,
                    e.component,
                    chunk.rows.len(),
                ) == Some(e.range),
    decreases n,
{
    let now = chunk_ranges(chunk, n);
    if n > 0 {
        let m = (n - 1) as nat;
        lemma_chunk(chunk, m);
        let before = chunk_ranges(chunk, m);
        let column = chunk.timelines[m as int];
        let added = column_ranges(column, chunk.rows, all_components().len());
        lemma_column(column, chunk.rows, all_components().len());
        assert forall|e: ComponentRangeView| #[trigger] now.contains(e) <==> exists|t: int|
            0 <= t < n && (#[trigger] chunk.timelines[t]).timeline == e.timeline
                && component_span(
                chunk.timelines[t].times,
                chunk.rows,
                e.component,
                chunk.rows.len(),
            ) == Some(e.range) by {
            let c = lemma_component_place(e.component);
            assert(all_components()[c] == e.component);
            lemma_both(before, added, e);
        }
    }
}

proof fn lemma_both<T>(a: Seq<T>, b: Seq<T>, e: T)
    ensures
        (a + b).contains(e) <==> a.contains(e) || b.contains(e),
{
    if a.contains(e) {
        let k = choose|k: int| 0 <= k < a.len() && a[k] == e;
        assert((a + b)[k] == e);
    }
    if b.contains(e) {
        let k = choose|k: int| 0 <= k < b.len() && b[k] == e;
        assert((a + b)[a.len() + k] == e);
    }
    if (a + b).contains(e) {
        let k = choose|k: int| 0 <= k < (a + b).len() && (a + b)[k] == e;
        if k < a.len() {
            assert(a[k] == e);
        } else {
            assert(b[k - a.len()] == e);
        }
    }
}

/// The entry of a chunk lists a range for a timeline and a component exactly where a column of
/// that timeline has rows with the component, and the range is the span of those rows. It has the
/// identifier and the entity of the chunk, which is static where it has no timeline.
pub proof fn entries_list_what_chunks_hold(
    chunk: &Chunk,
    offset: u64,
    size: u64,
    row: ManifestRow,
    e: ComponentRangeView,
)
    requires
        call_ensures(ManifestRow::of, (chunk, offset, size), row),
    ensures
        row.chunk_id == chunk.id,
        row.entity_path@ == chunk.entity_path@,
        row.is_static <==> chunk.timelines@.len() == 0,
        row.byte_offset == offset,
        row.byte_size == size,
        row@.ranges.contains(e) <==> exists|t: int|
            0 <= t < chunk@.timelines.len() && (#[trigger] chunk@.timelines[t]).timeline
                == e.timeline && component_span(
                chunk@.timelines[t].times,
                chunk@.rows,
                e.component,
                chunk@.rows.len(),
            ) == Some(e.range),
{
    lemma_chunk(chunk@, chunk@.timelines.len());
}

proof fn lemma_ranges(rows: Seq<ManifestRowView>, n: nat)
    requires
        n <= rows.len(),
    ensures
        forall|e: ChunkRangeView| #[trigger]
            ranges_of_rows(rows, n).contains(e) <==> exists|i: int|
                0 <= i < n && (#[trigger] rows[i]).chunk_id == e.chunk_id
                    && rows[i].ranges.contains(
                    ComponentRangeView {
                        timeline: e.timeline,
                        component: e.component,
                        range: e.range,
                    },
                ),
    decreases n,
{
    if n > 0 {
        let m = (n - 1) as nat;
        lemma_ranges(rows, m);
        let before = ranges_of_rows(rows, m);
        let row = rows[m as int];
        let added = ranges_of_row(row);
        assert forall|e: ChunkRangeView| #[trigger]
            ranges_of_rows(rows, n).contains(e) <==> exists|i: int|
                0 <= i < n && (#[trigger] rows[i]).chunk_id == e.chunk_id
                    && rows[i].ranges.contains(
                    ComponentRangeView {
                        timeline: e.timeline,
                        component: e.component,
                        range: e.range,
                    },
                ) by {
            let part = ComponentRangeView {
                timeline: e.timeline,
                component: e.component,
                range: e.range,
            };
            lemma_both(before, added, e);
            if added.contains(e) {
                let k = choose|k: int| 0 <= k < added.len() && added[k] == e;
                assert(row.ranges[k] =~= part);
            }
            if row.chunk_id == e.chunk_id && row.ranges.contains(part) {
                let k = choose|k: int| 0 <= k < row.ranges.len() && row.ranges[k] == part;
                assert(added[k] =~= e);
            }
        }
    }
}

/// A manifest that is prepared for lookups lists the same chunks in the same order, and of each
/// chunk exactly the ranges of its entries.
pub proof fn preparing_keeps_chunks_and_ranges(raw: RawManifestView, e: ChunkRangeView)
    ensures
        prepared(raw).store_id == raw.store_id,
        prepared(raw).chunk_ids.len() == raw.rows.len(),
        forall|i: int|
            0 <= i < raw.rows.len() ==> #[trigger] prepared(raw).chunk_ids[i]
                == raw.rows[i].chunk_id,
        prepared(raw).ranges.contains(e) <==> exists|i: int|
            0 <= i < raw.rows.len() && (#[trigger] raw.rows[i]).chunk_id == e.chunk_id
                && raw.rows[i].ranges.contains(
                ComponentRangeView {
                    timeline: e.timeline,
                    component: e.component,
                    range: e.range,
                },
            ),
{
    lemma_ranges(raw.rows, raw.rows.len());
}

} // verus!
