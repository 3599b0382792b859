//! What the operations of a store do, told by what is loaded, listed and asked for.

use crate::chunk::{AudioFieldsView, Chunk, ChunkView};
use crate::id_map::{has_key, lookup, unique_keys};
use crate::select::{flags_by, lemma_select_flags, select, selecting_is_filtering};
use crate::store::chunk_provider::ChunkProvider;
use crate::store::error::ChunkStoreError;
use crate::store::laws::{eviction_keeps_the_order, loaded_chunks_are_found};
use crate::store::lazy::{
    can_reply, chunks_of, dropped_ids, last_index, missing, untouched, with_chunks, EvictionStats,
    LazyChunkStore,
};
use crate::store::slice::{
    after_range, before_range, in_range, leftovers, sliced, times_on, touched,
};
use crate::store::timeline_index::chunk_span;
use crate::time::AbsoluteTimeRange;
use std::sync::Arc;
use vstd::prelude::*;

verus! {

/// Whether a time range has a time in common with a window, or there is none.
pub open spec fn stays_in(span: Option<AbsoluteTimeRange>, window: AbsoluteTimeRange) -> bool {
    span matches Some(range) ==> range.max >= window.min && range.min <= window.max
}

/// After eviction exactly those chunks are loaded, in the same order, that were loaded and of
/// which the manifest tells no time on the timeline or a time in the window. The counts tell how
/// many stayed and how many went, and the manifest goes on listing all of them.
pub proof fn eviction_keeps_the_window<P: ChunkProvider>()
    ensures
        forall|
            store: &mut LazyChunkStore<P>,
            timeline: &str,
            window: AbsoluteTimeRange,
            stats: EvictionStats,
        |
            #[trigger] call_ensures(
                LazyChunkStore::<P>::evict_outside_window,
                (store, timeline, window),
                stats,
            ) ==> {
                &&& final(store).loaded() == store.loaded().filter(
                    |c: (u128, Arc<Chunk>)|
                        stays_in(
                            chunk_span(
                                store.listing().ranges,
                                c.0,
                                timeline@,
                                store.listing().ranges.len(),
                            ),
                            window,
                        ),
                )
                &&& stats.retained == final(store).loaded().len()
                &&& stats.evicted + stats.retained == store.loaded().len()
                &&& final(store).listing() == store.listing()
                &&& final(store).raw_listing() == store.raw_listing()
            },
{
    assert forall|
        store: &mut LazyChunkStore<P>,
        timeline: &str,
        window: AbsoluteTimeRange,
        stats: EvictionStats,
    |
        #[trigger] call_ensures(
            LazyChunkStore::<P>::evict_outside_window,
            (store, timeline, window),
            stats,
        ) implies {
        &&& final(store).loaded() == store.loaded().filter(
            |c: (u128, Arc<Chunk>)|
                stays_in(
                    chunk_span(
                        store.listing().ranges,
                        c.0,
                        timeline@,
                        store.listing().ranges.len(),
                    ),
                    window,
                ),
        )
        &&& stats.retained == final(store).loaded().len()
        &&& stats.evicted + stats.retained == store.loaded().len()
        &&& final(store).listing() == store.listing()
        &&& final(store).raw_listing() == store.raw_listing()
    } by {
        let listing = store.listing();
        eviction_keeps_the_order(store.loaded(), listing, timeline@, window);
        let a = |c: (u128, Arc<Chunk>)|
            match chunk_span(listing.ranges, c.0, timeline@, listing.ranges.len()) {
                None => true,
                Some(range) => range.max >= window.min && range.min <= window.max,
            };
        let b = |c: (u128, Arc<Chunk>)|
            stays_in(
                chunk_span(listing.ranges, c.0, timeline@, listing.ranges.len()),
                window,
            );
        assert forall|c: (u128, Arc<Chunk>)| #[trigger] a(c) == b(c) by {
        }
        selecting_is_filtering(store.loaded(), a, a);
        selecting_is_filtering(store.loaded(), a, b);
    }
}

/// What is missing of some identifiers are those that are not loaded, in order.
pub proof fn missing_are_those_not_loaded(loaded: Seq<(u128, Arc<Chunk>)>, ids: Seq<u128>)
    ensures
        missing(loaded, ids) == ids.filter(
            |id: u128|
                forall|i: int| 0 <= i < loaded.len() ==> (#[trigger] loaded[i]).0 != id,
        ),
{
    let rule = |id: u128| !has_key(loaded, id);
    let pred = |id: u128| forall|i: int| 0 <= i < loaded.len() ==> (#[trigger] loaded[i]).0 != id;
    assert forall|id: u128| #[trigger] rule(id) == pred(id) by {
    }
    selecting_is_filtering(ids, rule, pred);
}

/// Loading keeps what is loaded, and adds the chunks that the provider handed out; a failure
/// changes nothing. The provider is asked for exactly what is not loaded, in the order in which
/// it was asked for, and is left alone where all of it is.
pub proof fn loading_adds_what_came<P: ChunkProvider>()
    ensures
        forall|
            store: &mut LazyChunkStore<P>,
            ids: &[u128],
            r: Result<Vec<Arc<Chunk>>, ChunkStoreError>,
        |
            unique_keys(store.loaded()) && #[trigger] call_ensures(
                LazyChunkStore::<P>::load_chunks,
                (store, ids),
                r,
            ) ==> {
                let before = store.loaded();
                let after = final(store).loaded();
                &&& r is Err ==> after == before
                &&& r matches Ok(chunks) ==> {
                    &&& forall|id: u128| #[trigger]
                        has_key(after, id) <==> has_key(before, id) || exists|k: int|
                            0 <= k < chunks@.len() && (#[trigger] chunks@[k]).id == id
                    &&& forall|id: u128| #[trigger]
                        has_key(before, id) ==> lookup(after, id) == lookup(before, id)
                }
                &&& (forall|i: int| 0 <= i < ids@.len() ==> has_key(before, #[trigger] ids@[i]))
                    ==> (r matches Ok(chunks) && chunks@.len() == 0)
                &&& missing(before, ids@).len() > 0 ==> exists|asked: &[u128]|
                    asked@ == missing(before, ids@) && #[trigger] call_ensures(
                        P::load_chunks,
                        (&store.source(), asked),
                        r,
                    )
            },
{
    assert forall|
        store: &mut LazyChunkStore<P>,
        ids: &[u128],
        r: Result<Vec<Arc<Chunk>>, ChunkStoreError>,
    |
        unique_keys(store.loaded()) && #[trigger] call_ensures(
            LazyChunkStore::<P>::load_chunks,
            (store, ids),
            r,
        ) implies {
        let before = store.loaded();
        let after = final(store).loaded();
        &&& r is Err ==> after == before
        &&& r matches Ok(chunks) ==> {
            &&& forall|id: u128| #[trigger]
                has_key(after, id) <==> has_key(before, id) || exists|k: int|
                    0 <= k < chunks@.len() && (#[trigger] chunks@[k]).id == id
            &&& forall|id: u128| #[trigger]
                has_key(before, id) ==> lookup(after, id) == lookup(before, id)
        }
        &&& (forall|i: int| 0 <= i < ids@.len() ==> has_key(before, #[trigger] ids@[i])) ==> (
        r matches Ok(chunks) && chunks@.len() == 0)
        &&& missing(before, ids@).len() > 0 ==> exists|asked: &[u128]|
            asked@ == missing(before, ids@) && #[trigger] call_ensures(
                P::load_chunks,
                (&store.source(), asked),
                r,
            )
    } by {
        let before = store.loaded();
        let after = final(store).loaded();
        assert(can_reply(store.source(), before, ids@, r));
        if let Ok(chunks) = r {
            assert(after == with_chunks(before, chunks@, chunks@.len()));
            assert forall|id: u128| #[trigger]
                has_key(after, id) <==> has_key(before, id) || exists|k: int|
                    0 <= k < chunks@.len() && (#[trigger] chunks@[k]).id == id by {
                crate::store::laws::lemma_with_chunks_keys(before, chunks@, chunks@.len(), id);
            }
            assert forall|id: u128| #[trigger] has_key(before, id) implies lookup(after, id)
                == lookup(before, id) by {
                loaded_chunks_are_found(before, chunks@, chunks@.len(), 0, id);
            }
        }
        if forall|i: int| 0 <= i < ids@.len() ==> has_key(before, #[trigger] ids@[i]) {
            if missing(before, ids@).len() > 0 {
                let id = missing(before, ids@)[0];
                assert(missing(before, ids@).contains(id));
                crate::store::laws::missing_is_asked_and_not_loaded(before, ids@, id);
                let i = choose|i: int| 0 <= i < ids@.len() && ids@[i] == id;
                assert(has_key(before, ids@[i]));
            }
        }
    }
}

/// The position of a chunk in the manifest is that of its last entry there, and there is none for
/// a chunk that is not listed.
pub proof fn positions_are_those_of_the_last_entry(ids: Seq<u128>, id: u128, n: nat)
    requires
        n <= ids.len(),
        n <= usize::MAX,
    ensures
        match last_index(ids, id, n) {
            Some(at) => {
                &&& at < n
                &&& ids[at as int] == id
                &&& forall|i: int| at < i < n ==> ids[i] != id
            },
            None => forall|i: int| 0 <= i < n ==> ids[i] != id,
        },
    decreases n,
{
    if n > 0 {
        positions_are_those_of_the_last_entry(ids, id, (n - 1) as nat);
    }
}

/// All loaded chunks are collected, each once, in the order in which they came.
pub proof fn all_loaded_chunks_are_collected<P: ChunkProvider>()
    ensures
        forall|store: &mut LazyChunkStore<P>, r: Result<Vec<Arc<Chunk>>, ChunkStoreError>|
            #[trigger] call_ensures(LazyChunkStore::<P>::collect_physical_chunks, (store,), r)
                ==> (r matches Ok(chunks) ==> {
                &&& chunks@.len() == final(store).loaded().len()
                &&& forall|i: int|
                    0 <= i < chunks@.len() ==> #[trigger] chunks@[i] == final(store).loaded()[i].1
            }),
{
    assert forall|store: &mut LazyChunkStore<P>, r: Result<Vec<Arc<Chunk>>, ChunkStoreError>|
        #[trigger] call_ensures(
            LazyChunkStore::<P>::collect_physical_chunks,
            (store,),
            r,
        ) implies (r matches Ok(chunks) ==> {
        &&& chunks@.len() == final(store).loaded().len()
        &&& forall|i: int|
            0 <= i < chunks@.len() ==> #[trigger] chunks@[i] == final(store).loaded()[i].1
    }) by {
        if let Ok(chunks) = r {
            assert(chunks@ == chunks_of(final(store).loaded()));
        }
    }
}

/// The range observed last on a timeline is the one that is found there, and those on other
/// timelines are found as before.
pub proof fn cursors_are_found_where_observed<P: ChunkProvider>()
    ensures
        forall|store: &mut LazyChunkStore<P>, timeline: &str, range: AbsoluteTimeRange|
            #[trigger] call_ensures(
                LazyChunkStore::<P>::observe_query_cursor,
                (store, timeline, range),
                (),
            ) ==> {
                &&& final(store).cursors().contains_key(timeline@)
                &&& final(store).cursors()[timeline@] == range
                &&& forall|other: Seq<char>|
                    other != timeline@ ==> (#[trigger] final(store).cursors().contains_key(other)
                        <==> store.cursors().contains_key(other)) && (store.cursors().contains_key(
                        other,
                    ) ==> final(store).cursors()[other] == store.cursors()[other])
                &&& final(store).loaded() == store.loaded()
                &&& final(store).listing() == store.listing()
            },
{
}

/// The times of a chunk on a timeline are those of the first column that belongs to it, and there
/// are none without such a column.
pub proof fn times_are_those_of_the_first_column(chunk: ChunkView, timeline: Seq<char>, n: nat)
    requires
        n <= chunk.timelines.len(),
    ensures
        match times_on(chunk, timeline, n) {
            Some(times) => exists|c: int|
                {
                    &&& 0 <= c < n
                    &&& (#[trigger] chunk.timelines[c]).timeline == timeline
                    &&& chunk.timelines[c].times == times
                    &&& forall|d: int|
                        0 <= d < c ==> (#[trigger] chunk.timelines[d]).timeline != timeline
                },
            None => forall|c: int|
                0 <= c < n ==> (#[trigger] chunk.timelines[c]).timeline != timeline,
        },
    decreases n,
{
    if n > 0 {
        let m = (n - 1) as nat;
        times_are_those_of_the_first_column(chunk, timeline, m);
        if times_on(chunk, timeline, m) is None && chunk.timelines[m as int].timeline == timeline {
            assert(chunk.timelines[m as int].times == times_on(chunk, timeline, n)->0);
        }
    }
}

proof fn lemma_any(flags: Seq<bool>)
    ensures
        flags.contains(true) <==> exists|k: int| 0 <= k < flags.len() && #[trigger] flags[k],
{
    if flags.contains(true) {
        let k = choose|k: int| 0 <= k < flags.len() && flags[k] == true;
        assert(flags[k]);
    }
    if exists|k: int| 0 <= k < flags.len() && #[trigger] flags[k] {
        let k = choose|k: int| 0 <= k < flags.len() && #[trigger] flags[k];
        assert(flags[k] == true);
    }
}

/// A chunk loses rows exactly when one of its rows lies between the two ends of the range.
pub proof fn chunks_with_a_row_in_the_range_are_touched(
    chunk: ChunkView,
    timeline: Seq<char>,
    range: AbsoluteTimeRange,
    times: Seq<i64>,
)
    requires
        times_on(chunk, timeline, chunk.timelines.len()) == Some(times),
    ensures
        touched(chunk, timeline, range) <==> exists|k: int|
            0 <= k < times.len() && range.min <= (#[trigger] times[k]) && times[k] <= range.max,
{
    let flags = in_range(times, range);
    lemma_any(flags);
    if flags.contains(true) {
        let k = choose|k: int| 0 <= k < flags.len() && #[trigger] flags[k];
        assert(range.min <= times[k] && times[k] <= range.max);
    }
    if exists|k: int|
        0 <= k < times.len() && range.min <= (#[trigger] times[k]) && times[k] <= range.max {
        let k = choose|k: int|
            0 <= k < times.len() && range.min <= (#[trigger] times[k]) && times[k] <= range.max;
        assert(flags[k]);
    }
}

/// The rows of a chunk, each with its time.
pub open spec fn timed_rows(chunk: ChunkView, times: Seq<i64>) -> Seq<(i64, AudioFieldsView)> {
    Seq::new(chunk.rows.len(), |k: int| (times[k], chunk.rows[k]))
}

/// The rows among some that have a time.
pub open spec fn rows_of(timed: Seq<(i64, AudioFieldsView)>) -> Seq<AudioFieldsView> {
    timed.map_values(|p: (i64, AudioFieldsView)| p.1)
}

proof fn lemma_selected_rows(
    chunk: ChunkView,
    times: Seq<i64>,
    flags: Seq<bool>,
    pred: spec_fn((i64, AudioFieldsView)) -> bool,
)
    requires
        times.len() == chunk.rows.len(),
        flags.len() == times.len(),
        forall|k: int|
            0 <= k < times.len() ==> #[trigger] flags[k] == pred((times[k], chunk.rows[k])),
    ensures
        select(chunk.rows, flags) == rows_of(timed_rows(chunk, times).filter(pred)),
        flags.contains(true) <==> timed_rows(chunk, times).filter(pred).len() > 0,
{
    let timed = timed_rows(chunk, times);
    selecting_is_filtering(timed, pred, pred);
    assert forall|k: int| 0 <= k < timed.len() implies #[trigger] flags[k] == flags_by(
        timed,
        pred,
    )[k] by {
    }
    lemma_select_flags(timed, flags, flags_by(timed, pred));
    crate::select::lemma_select_map(timed, |p: (i64, AudioFieldsView)| p.1, flags);
    assert(rows_of(timed) =~= chunk.rows);
    lemma_any(flags);
    crate::select::lemma_select(timed, flags);
    let kept = select(timed, flags);
    if flags.contains(true) {
        let k = choose|k: int| 0 <= k < flags.len() && #[trigger] flags[k];
        assert(kept.contains(timed[k]));
    }
    if kept.len() > 0 {
        assert(crate::select::is_flagged(timed, flags, kept[0]));
        let k = choose|k: int|
            0 <= k < timed.len() && flags[k] && (#[trigger] timed[k]) == kept[0];
        assert(flags[k]);
    }
}

/// What is left of a chunk are its rows before the range and its rows after it, each in order and
/// as a chunk of its own where there are any; the rows in the range are gone. Each part belongs to
/// the same entity, and they are numbered one after the other.
pub proof fn rows_outside_of_the_range_stay(
    chunk: ChunkView,
    timeline: Seq<char>,
    range: AbsoluteTimeRange,
    id: int,
    times: Seq<i64>,
)
    requires
        chunk.wf(),
        times_on(chunk, timeline, chunk.timelines.len()) == Some(times),
        range.min <= range.max,
        0 <= id,
        id + 1 <= u128::MAX,
    ensures
        ({
            let early = timed_rows(chunk, times).filter(
                |p: (i64, AudioFieldsView)| p.0 < range.min,
            );
            let late = timed_rows(chunk, times).filter(
                |p: (i64, AudioFieldsView)| p.0 > range.max,
            );
            let parts = leftovers(chunk, timeline, range, id);
            &&& early.len() == 0 && late.len() == 0 ==> parts.len() == 0
            &&& early.len() > 0 && late.len() == 0 ==> parts.len() == 1 && parts[0].rows
                == rows_of(early) && parts[0].id == id
            &&& early.len() == 0 && late.len() > 0 ==> parts.len() == 1 && parts[0].rows
                == rows_of(late) && parts[0].id == id
            &&& early.len() > 0 && late.len() > 0 ==> parts.len() == 2 && parts[0].rows
                == rows_of(early) && parts[1].rows == rows_of(late) && parts[0].id == id
                && parts[1].id == id + 1
            &&& forall|k: int|
                0 <= k < parts.len() ==> (#[trigger] parts[k]).entity_path == chunk.entity_path
                    && parts[k].timelines.len() == chunk.timelines.len()
        }),
{
    times_are_those_of_the_first_column(chunk, timeline, chunk.timelines.len());
    let c = choose|c: int|
        {
            &&& 0 <= c < chunk.timelines.len()
            &&& (#[trigger] chunk.timelines[c]).timeline == timeline
            &&& chunk.timelines[c].times == times
            &&& forall|d: int| 0 <= d < c ==> (#[trigger] chunk.timelines[d]).timeline != timeline
        };
    assert(chunk.timelines[c].times.len() == chunk.rows.len());
    lemma_selected_rows(
        chunk,
        times,
        before_range(times, range),
        |p: (i64, AudioFieldsView)| p.0 < range.min,
    );
    lemma_selected_rows(
        chunk,
        times,
        after_range(times, range),
        |p: (i64, AudioFieldsView)| p.0 > range.max,
    );
}

/// A part of a chunk keeps the times of its rows: row by row and timeline by timeline they are
/// those of the rows that were taken.
pub proof fn parts_keep_their_times(chunk: ChunkView, flags: Seq<bool>, id: u128, t: int)
    requires
        0 <= t < chunk.timelines.len(),
    ensures
        sliced(chunk, flags, id).timelines[t].timeline == chunk.timelines[t].timeline,
        sliced(chunk, flags, id).timelines[t].times == select(chunk.timelines[t].times, flags),
        sliced(chunk, flags, id).rows == select(chunk.rows, flags),
{
}

proof fn lemma_dropped_ids(
    loaded: Seq<(u128, Arc<Chunk>)>,
    timeline: Seq<char>,
    range: AbsoluteTimeRange,
    n: nat,
)
    requires
        n <= loaded.len(),
    ensures
        dropped_ids(loaded, timeline, range, n) == loaded.take(n as int).filter(
            |c: (u128, Arc<Chunk>)| touched(c.1@, timeline, range),
        ).map_values(|c: (u128, Arc<Chunk>)| c.0),
    decreases n,
{
    reveal(Seq::filter);
    let pred = |c: (u128, Arc<Chunk>)| touched(c.1@, timeline, range);
    let name = |c: (u128, Arc<Chunk>)| c.0;
    if n > 0 {
        lemma_dropped_ids(loaded, timeline, range, (n - 1) as nat);
        let now = loaded.take(n as int);
        let before = loaded.take(n - 1);
        assert(now.drop_last() =~= before);
        if pred(now.last()) {
            assert(now.filter(pred).map_values(name) =~= before.filter(pred).map_values(name).push(
                loaded[n - 1].0,
            ));
        }
    } else {
        assert(dropped_ids(loaded, timeline, range, 0) =~= loaded.take(0).filter(pred).map_values(
            name,
        ));
    }
}

/// The identifiers of exactly those chunks are reported that had a row in the range, in order, and
/// exactly the others stay as they were.
pub proof fn touched_chunks_are_reported(
    loaded: Seq<(u128, Arc<Chunk>)>,
    timeline: Seq<char>,
    range: AbsoluteTimeRange,
)
    ensures
        dropped_ids(loaded, timeline, range, loaded.len()) == loaded.filter(
            |c: (u128, Arc<Chunk>)| touched(c.1@, timeline, range),
        ).map_values(|c: (u128, Arc<Chunk>)| c.0),
        untouched(loaded, timeline, range) == loaded.filter(
            |c: (u128, Arc<Chunk>)| !touched(c.1@, timeline, range),
        ),
{
    lemma_dropped_ids(loaded, timeline, range, loaded.len());
    assert(loaded.take(loaded.len() as int) =~= loaded);
    let rule = |c: (u128, Arc<Chunk>)| !touched(c.1@, timeline, range);
    selecting_is_filtering(loaded, rule, rule);
}

} // verus!
