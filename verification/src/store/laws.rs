//! What loading and dropping chunks keeps.

use crate::chunk::{Chunk, ChunkView};
use crate::id_map::{has_key, lemma_upsert, lookup, unique_keys, IdMap};
use crate::manifest::{ChunkRangeView, ManifestView};
use crate::select::{
    flags_by, is_flagged, lemma_select, lemma_select_again, select, selecting_is_filtering,
};
use crate::store::chunk_provider::ChunkProvider;
use crate::store::error::ChunkStoreError;
use crate::store::lazy::{
    after_reply, all_leftovers, autoload_ends, autoload_round, autoloaded, can_miss, can_reply,
    kept_in_window, loading_keeps_chunks, missing, outside_window, with_chunks,
    ExtractPropertiesError,
};
use crate::store::slice::{after_range, before_range, leftovers, times_on, touched};
use crate::store::timeline_index::chunk_span;
use crate::time::AbsoluteTimeRange;
use std::sync::Arc;
use vstd::prelude::*;

verus! {

/// What has to be loaded of `ids` is what is asked for and not loaded.
pub proof fn missing_is_asked_and_not_loaded(
    loaded: Seq<(u128, Arc<Chunk>)>,
    ids: Seq<u128>,
    id: u128,
)
    ensures
        missing(loaded, ids).contains(id) <==> ids.contains(id) && !has_key(loaded, id),
{
    let rule = |i: u128| !has_key(loaded, i);
    let flags = flags_by(ids, rule);
    let out = missing(loaded, ids);
    lemma_select(ids, flags);
    if out.contains(id) {
        let k = choose|k: int| 0 <= k < out.len() && out[k] == id;
        assert(is_flagged(ids, flags, out[k]));
        let i = choose|i: int| 0 <= i < ids.len() && flags[i] && (#[trigger] ids[i]) == id;
        assert(flags[i] == rule(ids[i]));
    }
    if ids.contains(id) && !has_key(loaded, id) {
        let i = choose|i: int| 0 <= i < ids.len() && ids[i] == id;
        assert(flags[i] == rule(ids[i]));
        assert(select(ids, flags).contains(ids[i]));
    }
}

pub(crate) proof fn lemma_with_chunks_keys(
    loaded: Seq<(u128, Arc<Chunk>)>,
    chunks: Seq<Arc<Chunk>>,
    n: nat,
    id: u128,
)
    requires
        n <= chunks.len(),
    ensures
        has_key(with_chunks(loaded, chunks, n), id) <==> has_key(loaded, id) || exists|k: int|
            0 <= k < n && (#[trigger] chunks[k]).id == id,
    decreases n,
{
    if n > 0 {
        let m = (n - 1) as nat;
        lemma_with_chunks_keys(loaded, chunks, m, id);
        let before = with_chunks(loaded, chunks, m);
        let after = with_chunks(loaded, chunks, n);
        let chunk = chunks[n - 1];
        if has_key(before, id) {
            let p = choose|p: int| 0 <= p < before.len() && (#[trigger] before[p]).0 == id;
            assert(after[p] == before[p]);
            assert(has_key(after, id));
        }
        if chunk.id == id {
            if !has_key(before, chunk.id) {
                assert(after[before.len() as int].0 == id);
            }
            assert(has_key(after, id));
        } else if has_key(after, id) {
            let p = choose|p: int| 0 <= p < after.len() && (#[trigger] after[p]).0 == id;
            assert(before[p] == after[p]);
        }
    }
}

/// Where the provider hands out every chunk that it is asked for, everything is loaded
/// afterwards, so that asking for the same chunks again leaves the provider alone.
pub proof fn loading_again_asks_for_nothing(
    loaded: Seq<(u128, Arc<Chunk>)>,
    ids: Seq<u128>,
    chunks: Seq<Arc<Chunk>>,
)
    requires
        forall|id: u128| #[trigger]
            missing(loaded, ids).contains(id) ==> exists|k: int|
                0 <= k < chunks.len() && (#[trigger] chunks[k]).id == id,
    ensures
        missing(with_chunks(loaded, chunks, chunks.len()), ids).len() == 0,
{
    let after = with_chunks(loaded, chunks, chunks.len());
    let out = missing(after, ids);
    if out.len() > 0 {
        let id = out[0];
        assert(out.contains(id));
        missing_is_asked_and_not_loaded(after, ids, id);
        missing_is_asked_and_not_loaded(loaded, ids, id);
        lemma_with_chunks_keys(loaded, chunks, chunks.len(), id);
    }
}

/// A chunk that came is found under its identifier, where none was loaded under it before and
/// none came before it; and what was loaded before is found as before.
pub proof fn loaded_chunks_are_found(
    loaded: Seq<(u128, Arc<Chunk>)>,
    chunks: Seq<Arc<Chunk>>,
    n: nat,
    k: int,
    id: u128,
)
    requires
        unique_keys(loaded),
        n <= chunks.len(),
    ensures
        unique_keys(with_chunks(loaded, chunks, n)),
        has_key(loaded, id) ==> lookup(with_chunks(loaded, chunks, n), id) == lookup(loaded, id),
        0 <= k < n && chunks[k].id == id && !has_key(loaded, id) && (forall|j: int|
            0 <= j < k ==> (#[trigger] chunks[j]).id != id) ==> lookup(
            with_chunks(loaded, chunks, n),
            id,
        ) == Some(chunks[k]),
    decreases n,
{
    if n > 0 {
        let m = (n - 1) as nat;
        loaded_chunks_are_found(loaded, chunks, m, k, id);
        lemma_with_chunks_keys(loaded, chunks, m, id);
        let before = with_chunks(loaded, chunks, m);
        let chunk = chunks[n - 1];
        if !has_key(before, chunk.id) {
            lemma_upsert(before, chunk.id, chunk);
        }
    }
}

/// Automatic loading keeps what is loaded, however many rounds it takes.
pub proof fn autoload_keeps_chunks<
    P: ChunkProvider,
    T,
    F: Fn(&IdMap<Arc<Chunk>>) -> Result<T, ExtractPropertiesError>,
>(op: F, source: P, first: Seq<(u128, Arc<Chunk>)>, last: Seq<(u128, Arc<Chunk>)>, n: nat)
    requires
        autoloaded::<P, T, F>(op, source, first, last, n),
    ensures
        last.len() >= first.len(),
        last.take(first.len() as int) == first,
    decreases n,
{
    if n == 0 {
        assert(last.take(first.len() as int) =~= first);
    } else {
        let middle = choose|middle: Seq<(u128, Arc<Chunk>)>|
            autoloaded::<P, T, F>(op, source, first, middle, (n - 1) as nat)
                && #[trigger] autoload_round::<P, T, F>(op, source, middle, last);
        autoload_keeps_chunks::<P, T, F>(op, source, first, middle, (n - 1) as nat);
        let (ids, reply) = choose|
            ids: Vec<u128>,
            reply: Result<Vec<Arc<Chunk>>, ChunkStoreError>,
        |
            {
                &&& #[trigger] can_miss::<T, F>(op, middle, ids)
                &&& #[trigger] can_reply(source, middle, ids@, reply)
                &&& reply is Ok
                &&& last == after_reply(middle, reply)
            };
        let chunks = reply->Ok_0@;
        loading_keeps_chunks(middle, chunks, chunks.len());
        assert(last.take(first.len() as int) =~= middle.take(first.len() as int));
    }
}

/// A loaded chunk is evicted exactly when it lies outside of the window.
pub proof fn eviction_drops_outside_only(
    loaded: Seq<(u128, Arc<Chunk>)>,
    manifest: ManifestView,
    timeline: Seq<char>,
    window: AbsoluteTimeRange,
    i: int,
)
    requires
        0 <= i < loaded.len(),
    ensures
        kept_in_window(loaded, manifest, timeline, window).contains(loaded[i])
            <==> !outside_window(manifest, loaded[i].0, timeline, window),
{
    let rule = |c: (u128, Arc<Chunk>)| !outside_window(manifest, c.0, timeline, window);
    let flags = flags_by(loaded, rule);
    let kept = kept_in_window(loaded, manifest, timeline, window);
    lemma_select(loaded, flags);
    assert(flags[i] == rule(loaded[i]));
    if kept.contains(loaded[i]) {
        let k = choose|k: int| 0 <= k < kept.len() && kept[k] == loaded[i];
        assert(is_flagged(loaded, flags, kept[k]));
        let j = choose|j: int|
            0 <= j < loaded.len() && flags[j] && (#[trigger] loaded[j]) == kept[k];
        assert(flags[j] == rule(loaded[j]));
    }
}

/// Evicting with the same window again drops nothing.
pub proof fn evicting_again_drops_nothing(
    loaded: Seq<(u128, Arc<Chunk>)>,
    manifest: ManifestView,
    timeline: Seq<char>,
    window: AbsoluteTimeRange,
)
    ensures
        kept_in_window(
            kept_in_window(loaded, manifest, timeline, window),
            manifest,
            timeline,
            window,
        ) == kept_in_window(loaded, manifest, timeline, window),
{
    let rule = |c: (u128, Arc<Chunk>)| !outside_window(manifest, c.0, timeline, window);
    lemma_select_again(loaded, rule);
}

/// A chunk that eviction dropped is asked for again when it is next needed.
pub proof fn evicted_chunks_are_loaded_again(
    loaded: Seq<(u128, Arc<Chunk>)>,
    manifest: ManifestView,
    timeline: Seq<char>,
    window: AbsoluteTimeRange,
    ids: Seq<u128>,
    id: u128,
)
    requires
        ids.contains(id),
        outside_window(manifest, id, timeline, window),
    ensures
        missing(kept_in_window(loaded, manifest, timeline, window), ids).contains(id),
{
    let rule = |c: (u128, Arc<Chunk>)| !outside_window(manifest, c.0, timeline, window);
    let flags = flags_by(loaded, rule);
    let kept = kept_in_window(loaded, manifest, timeline, window);
    lemma_select(loaded, flags);
    if has_key(kept, id) {
        let k = choose|k: int| 0 <= k < kept.len() && (#[trigger] kept[k]).0 == id;
        assert(is_flagged(loaded, flags, kept[k]));
        let j = choose|j: int|
            0 <= j < loaded.len() && flags[j] && (#[trigger] loaded[j]) == kept[k];
        assert(flags[j] == rule(loaded[j]));
    }
    missing_is_asked_and_not_loaded(kept, ids, id);
}

/// A range that covers all of time leaves nothing of a chunk that it touches.
pub proof fn dropping_all_time_leaves_nothing(
    loaded: Seq<(u128, Arc<Chunk>)>,
    timeline: Seq<char>,
    range: AbsoluteTimeRange,
    id: u128,
    n: nat,
)
    requires
        n <= loaded.len(),
        forall|t: i64| #[trigger] range.holds(t as int),
    ensures
        all_leftovers(loaded, timeline, range, id, n) == Seq::<ChunkView>::empty(),
    decreases n,
{
    if n > 0 {
        dropping_all_time_leaves_nothing(loaded, timeline, range, id, (n - 1) as nat);
        let chunk = loaded[n - 1].1@;
        if touched(chunk, timeline, range) {
            let times = times_on(chunk, timeline, chunk.timelines.len())->0;
            if before_range(times, range).contains(true) {
                let k = choose|k: int|
                    0 <= k < times.len() && before_range(times, range)[k] == true;
                assert(range.holds(times[k] as int));
            }
            if after_range(times, range).contains(true) {
                let k = choose|k: int|
                    0 <= k < times.len() && after_range(times, range)[k] == true;
                assert(range.holds(times[k] as int));
            }
            assert(leftovers(chunk, timeline, range, id as int) =~= Seq::<ChunkView>::empty());
        }
        assert(all_leftovers(loaded, timeline, range, id, n) =~= Seq::<ChunkView>::empty());
    }
}

/// The times that a manifest tells of a chunk on a timeline: nothing where no range is listed for
/// it there, and otherwise the range that begins with the earliest and ends with the latest of
/// those that are.
pub proof fn span_reaches_from_earliest_to_latest(
    ranges: Seq<ChunkRangeView>,
    chunk_id: u128,
    timeline: Seq<char>,
    n: nat,
)
    requires
        n <= ranges.len(),
    ensures
        chunk_span(ranges, chunk_id, timeline, n) is None <==> forall|k: int|
            0 <= k < n ==> (#[trigger] ranges[k]).chunk_id != chunk_id || ranges[k].timeline
                != timeline,
        chunk_span(ranges, chunk_id, timeline, n) matches Some(span) ==> {
            &&& forall|k: int|
                0 <= k < n && (#[trigger] ranges[k]).chunk_id == chunk_id && ranges[k].timeline
                    == timeline ==> span.min <= ranges[k].range.min && ranges[k].range.max
                    <= span.max
            &&& exists|k: int|
                0 <= k < n && (#[trigger] ranges[k]).chunk_id == chunk_id && ranges[k].timeline
                    == timeline && ranges[k].range.min == span.min
            &&& exists|k: int|
                0 <= k < n && (#[trigger] ranges[k]).chunk_id == chunk_id && ranges[k].timeline
                    == timeline && ranges[k].range.max == span.max
        },
    decreases n,
{
    if n > 0 {
        let m = (n - 1) as nat;
        span_reaches_from_earliest_to_latest(ranges, chunk_id, timeline, m);
        let last = ranges[m as int];
        let before = chunk_span(ranges, chunk_id, timeline, m);
        let span = chunk_span(ranges, chunk_id, timeline, n);
        if let Some(old) = before {
            let a = choose|k: int|
                0 <= k < m && (#[trigger] ranges[k]).chunk_id == chunk_id && ranges[k].timeline
                    == timeline && ranges[k].range.min == old.min;
            let b = choose|k: int|
                0 <= k < m && (#[trigger] ranges[k]).chunk_id == chunk_id && ranges[k].timeline
                    == timeline && ranges[k].range.max == old.max;
            assert(ranges[a].range.min == old.min);
            assert(ranges[b].range.max == old.max);
        }
        assert(last == ranges[m as int]);
    }
}

/// Eviction keeps a loaded chunk exactly when the manifest tells no time of it on the timeline or
/// its span has a time in common with the window.
pub proof fn eviction_keeps_what_meets_the_window(
    loaded: Seq<(u128, Arc<Chunk>)>,
    manifest: ManifestView,
    timeline: Seq<char>,
    window: AbsoluteTimeRange,
    i: int,
)
    requires
        0 <= i < loaded.len(),
    ensures
        kept_in_window(loaded, manifest, timeline, window).contains(loaded[i]) <==> (
        match chunk_span(manifest.ranges, loaded[i].0, timeline, manifest.ranges.len()) {
            None => true,
            Some(range) => range.max >= window.min && range.min <= window.max,
        }),
{
    eviction_drops_outside_only(loaded, manifest, timeline, window, i);
}

/// Eviction keeps a loaded chunk exactly when no range is listed for it on the timeline, or one
/// of those listed ends no earlier than the window begins and one begins no later than it ends.
pub proof fn eviction_goes_by_the_listed_ranges(
    loaded: Seq<(u128, Arc<Chunk>)>,
    manifest: ManifestView,
    timeline: Seq<char>,
    window: AbsoluteTimeRange,
    i: int,
)
    requires
        0 <= i < loaded.len(),
    ensures
        kept_in_window(loaded, manifest, timeline, window).contains(loaded[i]) <==> {
            ||| forall|k: int|
                0 <= k < manifest.ranges.len() ==> (#[trigger] manifest.ranges[k]).chunk_id
                    != loaded[i].0 || manifest.ranges[k].timeline != timeline
            ||| {
                &&& exists|k: int|
                    0 <= k < manifest.ranges.len() && (#[trigger] manifest.ranges[k]).chunk_id
                        == loaded[i].0 && manifest.ranges[k].timeline == timeline
                        && manifest.ranges[k].range.max >= window.min
                &&& exists|k: int|
                    0 <= k < manifest.ranges.len() && (#[trigger] manifest.ranges[k]).chunk_id
                        == loaded[i].0 && manifest.ranges[k].timeline == timeline
                        && manifest.ranges[k].range.min <= window.max
            }
        },
{
    eviction_keeps_what_meets_the_window(loaded, manifest, timeline, window, i);
    span_reaches_from_earliest_to_latest(
        manifest.ranges,
        loaded[i].0,
        timeline,
        manifest.ranges.len(),
    );
}

/// Eviction changes neither the order of what it keeps nor the chunks themselves.
pub proof fn eviction_keeps_the_order(
    loaded: Seq<(u128, Arc<Chunk>)>,
    manifest: ManifestView,
    timeline: Seq<char>,
    window: AbsoluteTimeRange,
)
    ensures
        kept_in_window(loaded, manifest, timeline, window) == loaded.filter(
            |c: (u128, Arc<Chunk>)|
                match chunk_span(manifest.ranges, c.0, timeline, manifest.ranges.len()) {
                    None => true,
                    Some(range) => range.max >= window.min && range.min <= window.max,
                },
        ),
{
    let rule = |c: (u128, Arc<Chunk>)| !outside_window(manifest, c.0, timeline, window);
    let pred = |c: (u128, Arc<Chunk>)|
        match chunk_span(manifest.ranges, c.0, timeline, manifest.ranges.len()) {
            None => true,
            Some(range) => range.max >= window.min && range.min <= window.max,
        };
    assert forall|c: (u128, Arc<Chunk>)| #[trigger] rule(c) == pred(c) by {
    }
    selecting_is_filtering(loaded, rule, pred);
}

/// Automatic loading drops nothing that is loaded. Where the operation comes to a result, that is
/// its result on what is loaded in the end; it is never handed on that chunks are missing.
pub proof fn autoload_ends_with_the_result_of_the_operation<
    P: ChunkProvider,
    T,
    F: Fn(&IdMap<Arc<Chunk>>) -> Result<T, ExtractPropertiesError>,
>(
    op: F,
    source: P,
    first: Seq<(u128, Arc<Chunk>)>,
    last: Seq<(u128, Arc<Chunk>)>,
    r: Result<T, ExtractPropertiesError>,
)
    requires
        autoload_ends::<P, T, F>(op, source, first, last, r),
    ensures
        last.len() >= first.len(),
        last.take(first.len() as int) == first,
        r is Ok ==> exists|chunks: &IdMap<Arc<Chunk>>|
            chunks@ == last && #[trigger] call_ensures(op, (chunks,), r),
        !(r matches Err(ExtractPropertiesError::MissingData(_))),
{
    let n = choose|n: nat| #[trigger] autoloaded::<P, T, F>(op, source, first, last, n);
    autoload_keeps_chunks::<P, T, F>(op, source, first, last, n);
}

} // verus!
