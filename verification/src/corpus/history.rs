//! What holds of the provider after any number of scans.

use crate::corpus::chunk_builder::placeable;
use crate::corpus::provider::{
    absorbed, absorbed_is_consistent, chunks_are_listed_once, each_row_is_replayed_once, is_new,
    laid_out, lemma_segment_rows_from, listed_ids, no_rows_yet, placed_identifiers,
    replay_covers_rows, ProviderView,
};
use crate::corpus::provider_laws::{
    entities_are_fixed, lemma_entries_come_from_rows, lemma_placed_segment, lemma_raised_by,
    rows_can_be_built,
};
use crate::corpus::replay::{
    identifiers_apart, placed_entries, replayed, segment_rows, segments_apart_from_statics,
    static_id, statics_tell_entities, ChunkKind, ManifestEntry,
};
use crate::corpus::row::CorpusChunkRow;
use crate::id_map::{has_key, key_set, lookup, position};
use crate::manifest::StoreId;
use vstd::prelude::*;

verus! {

/// The rows of the first `n` scans, one after the other.
pub open spec fn scanned_rows(scans: Seq<Seq<CorpusChunkRow>>, n: nat) -> Seq<CorpusChunkRow>
    decreases n,
{
    if n == 0 {
        Seq::empty()
    } else {
        scanned_rows(scans, (n - 1) as nat) + scans[n - 1]
    }
}

/// What the provider knows after the first `n` scans. A scan without rows changes nothing.
pub open spec fn after_scans(
    store_id: StoreId,
    scans: Seq<Seq<CorpusChunkRow>>,
    n: nat,
) -> ProviderView
    decreases n,
{
    if n == 0 {
        no_rows_yet(store_id)
    } else {
        let before = after_scans(store_id, scans, (n - 1) as nat);
        if scans[n - 1].len() == 0 {
            before
        } else {
            absorbed(before, store_id, scans[n - 1])
        }
    }
}

/// Whether rows with the same chunk identifier start at the same time.
pub open spec fn starts_are_fixed(rows: Seq<CorpusChunkRow>) -> bool {
    forall|i: int, j: int|
        0 <= i < rows.len() && 0 <= j < rows.len() && (#[trigger] rows[i]).id() == (#[trigger]
        rows[j]).id() ==> rows[i].chunk_start_ns == rows[j].chunk_start_ns
}

/// Whether the identifiers that are derived from `rows` tell them and their entities apart.
pub open spec fn told_apart(rows: Seq<CorpusChunkRow>) -> bool {
    &&& forall|i: int, j: int|
        0 <= i < rows.len() && 0 <= j < rows.len() && (#[trigger] rows[i]).id() == (#[trigger]
        rows[j]).id() ==> rows[i].chunk_id_str@ == rows[j].chunk_id_str@
    &&& segments_apart_from_statics(rows)
    &&& statics_tell_entities(rows)
}

/// Whether `entries` has the segment of `row`.
pub open spec fn has_segment(entries: Seq<(u128, ManifestEntry)>, row: CorpusChunkRow) -> bool {
    lookup(entries, row.id()) matches Some(e) && e.kind == ChunkKind::Segment && e.row.id()
        == row.id()
}

/// Whether `entries` has the chunk that announces the entity of `row`.
pub open spec fn has_announcement(
    entries: Seq<(u128, ManifestEntry)>,
    row: CorpusChunkRow,
) -> bool {
    lookup(entries, static_id(row.entity())) matches Some(e) && e.kind == ChunkKind::Static
        && static_id(e.row.entity()) == static_id(row.entity())
}

/// Whether every entry was made from one of `rows`.
pub open spec fn made_from(
    entries: Seq<(u128, ManifestEntry)>,
    rows: Seq<CorpusChunkRow>,
) -> bool {
    forall|e: int| 0 <= e < entries.len() ==> rows.contains((#[trigger] entries[e]).1.row)
}

/// Whether every one of `rows` has its segment among `entries`.
pub open spec fn made_for(
    entries: Seq<(u128, ManifestEntry)>,
    rows: Seq<CorpusChunkRow>,
) -> bool {
    forall|i: int| 0 <= i < rows.len() ==> has_segment(entries, #[trigger] rows[i])
}

/// Whether `k` identifies the segment of one of `rows`, or the chunk that announces its entity.
pub open spec fn identifies(rows: Seq<CorpusChunkRow>, k: u128) -> bool {
    exists|j: int|
        0 <= j < rows.len() && ((#[trigger] rows[j]).id() == k || static_id(rows[j].entity()) == k)
}

/// Whether the watermark is the largest start time of all segments, and there is none exactly
/// where there are no segments.
pub open spec fn watermark_is_latest(state: ProviderView) -> bool {
    match state.watermark_ns {
        Some(w) => {
            &&& exists|e: int|
                0 <= e < state.entries.len() && (#[trigger] state.entries[e]).1.kind
                    == ChunkKind::Segment && state.entries[e].1.row.chunk_start_ns == w
            &&& forall|e: int|
                0 <= e < state.entries.len() && (#[trigger] state.entries[e]).1.kind
                    == ChunkKind::Segment ==> state.entries[e].1.row.chunk_start_ns <= w
        },
        None => forall|e: int|
            0 <= e < state.entries.len() ==> (#[trigger] state.entries[e]).1.kind
                != ChunkKind::Segment,
    }
}

/// The rows of all entries.
pub open spec fn entry_rows(entries: Seq<(u128, ManifestEntry)>) -> Seq<CorpusChunkRow> {
    entries.map_values(|e: (u128, ManifestEntry)| e.1.row)
}

proof fn lemma_replay_from(
    entries: Seq<(u128, ManifestEntry)>,
    rows: Seq<CorpusChunkRow>,
    new_rows: Seq<CorpusChunkRow>,
)
    requires
        made_from(entries, rows),
    ensures
        forall|i: int|
            0 <= i < (segment_rows(entries) + new_rows).len() ==> (rows + new_rows).contains(
                #[trigger] (segment_rows(entries) + new_rows)[i],
            ),
        forall|k: int|
            0 <= k < replayed(entries, new_rows).len() ==> (rows + new_rows).contains(
                #[trigger] replayed(entries, new_rows)[k],
            ),
{
    let kept = segment_rows(entries);
    let all = kept + new_rows;
    let so_far = rows + new_rows;
    let laid = replayed(entries, new_rows);
    lemma_segment_rows_from(entries);
    replay_covers_rows(entries, new_rows);
    assert forall|i: int| 0 <= i < all.len() implies so_far.contains(#[trigger] all[i]) by {
        if i < kept.len() {
            assert(kept[i] == all[i]);
            let e = choose|e: int|
                0 <= e < entries.len() && (#[trigger] entries[e]).1.kind == ChunkKind::Segment
                    && entries[e].1.row == kept[i];
            assert(rows.contains(entries[e].1.row));
            let m = choose|m: int| 0 <= m < rows.len() && rows[m] == entries[e].1.row;
            assert(so_far[m] == all[i]);
        } else {
            assert(so_far[rows.len() + (i - kept.len())] == all[i]);
        }
    }
    assert forall|k: int| 0 <= k < laid.len() implies so_far.contains(#[trigger] laid[k]) by {
        assert(all.contains(laid[k]));
        let i = choose|i: int| 0 <= i < all.len() && all[i] == laid[k];
        assert(so_far.contains(all[i]));
    }
}

proof fn lemma_kept_for(
    entries: Seq<(u128, ManifestEntry)>,
    new_rows: Seq<CorpusChunkRow>,
    row: CorpusChunkRow,
) -> (m: int)
    requires
        has_segment(entries, row) || new_rows.contains(row),
    ensures
        0 <= m < (segment_rows(entries) + new_rows).len(),
        (segment_rows(entries) + new_rows)[m].id() == row.id(),
{
    let kept = segment_rows(entries);
    let all = kept + new_rows;
    if has_segment(entries, row) {
        lemma_segment_rows_from(entries);
        let p = position(entries, row.id());
        assert(kept.contains(entries[p].1.row));
        let m = choose|m: int| 0 <= m < kept.len() && kept[m] == entries[p].1.row;
        assert(all[m] == kept[m]);
        m
    } else {
        let i = choose|i: int| 0 <= i < new_rows.len() && new_rows[i] == row;
        assert(all[kept.len() + i] == row);
        kept.len() + i
    }
}

proof fn lemma_apart_in_replay(
    entries: Seq<(u128, ManifestEntry)>,
    rows: Seq<CorpusChunkRow>,
    new_rows: Seq<CorpusChunkRow>,
)
    requires
        made_from(entries, rows),
        segments_apart_from_statics(rows + new_rows),
    ensures
        segments_apart_from_statics(segment_rows(entries) + new_rows),
{
    let all = segment_rows(entries) + new_rows;
    let so_far = rows + new_rows;
    lemma_replay_from(entries, rows, new_rows);
    assert forall|i: int, j: int| 0 <= i < all.len() && 0 <= j < all.len() implies (#[trigger]
    all[i]).id() != static_id((#[trigger] all[j]).entity()) by {
        assert(so_far.contains(all[i]));
        assert(so_far.contains(all[j]));
    }
}

proof fn lemma_made_from_step(
    state: ProviderView,
    store_id: StoreId,
    rows: Seq<CorpusChunkRow>,
    new_rows: Seq<CorpusChunkRow>,
)
    requires
        made_from(state.entries, rows),
    ensures
        made_from(absorbed(state, store_id, new_rows).entries, rows + new_rows),
{
    let laid = replayed(state.entries, new_rows);
    let after = placed_entries(laid, laid.len());
    lemma_replay_from(state.entries, rows, new_rows);
    lemma_entries_come_from_rows(laid, laid.len());
    assert forall|e: int| 0 <= e < after.len() implies (rows + new_rows).contains(
        (#[trigger] after[e]).1.row,
    ) by {
        assert(laid.contains(after[e].1.row));
        let k = choose|k: int| 0 <= k < laid.len() && laid[k] == after[e].1.row;
        assert((rows + new_rows).contains(laid[k]));
    }
}

proof fn lemma_made_step(
    state: ProviderView,
    store_id: StoreId,
    rows: Seq<CorpusChunkRow>,
    new_rows: Seq<CorpusChunkRow>,
)
    requires
        state.wf(),
        made_from(state.entries, rows),
        made_for(state.entries, rows),
        segments_apart_from_statics(rows + new_rows),
    ensures
        made_from(absorbed(state, store_id, new_rows).entries, rows + new_rows),
        made_for(absorbed(state, store_id, new_rows).entries, rows + new_rows),
{
    let so_far = rows + new_rows;
    let after = absorbed(state, store_id, new_rows).entries;
    lemma_made_from_step(state, store_id, rows, new_rows);
    lemma_apart_in_replay(state.entries, rows, new_rows);
    rows_can_be_built(state, store_id, new_rows);
    assert forall|i: int| 0 <= i < so_far.len() implies has_segment(
        after,
        #[trigger] so_far[i],
    ) by {
        if i < rows.len() {
            assert(so_far[i] == rows[i]);
        } else {
            assert(so_far[i] == new_rows[i - rows.len()]);
        }
        let m = lemma_kept_for(state.entries, new_rows, so_far[i]);
        assert((segment_rows(state.entries) + new_rows)[m].id() == so_far[i].id());
    }
}

proof fn lemma_laid_for(
    entries: Seq<(u128, ManifestEntry)>,
    rows: Seq<CorpusChunkRow>,
    new_rows: Seq<CorpusChunkRow>,
    j: int,
) -> (q: int)
    requires
        made_from(entries, rows),
        made_for(entries, rows),
        entities_are_fixed(rows + new_rows),
        0 <= j < (rows + new_rows).len(),
    ensures
        0 <= q < replayed(entries, new_rows).len(),
        replayed(entries, new_rows)[q].id() == (rows + new_rows)[j].id(),
        replayed(entries, new_rows)[q].entity() == (rows + new_rows)[j].entity(),
{
    let so_far = rows + new_rows;
    let all = segment_rows(entries) + new_rows;
    let laid = replayed(entries, new_rows);
    if j < rows.len() {
        assert(so_far[j] == rows[j]);
    } else {
        assert(so_far[j] == new_rows[j - rows.len()]);
    }
    let i = lemma_kept_for(entries, new_rows, so_far[j]);
    replay_covers_rows(entries, new_rows);
    assert(all[i].id() == so_far[j].id());
    let q = choose|q: int|
        0 <= q < laid.len() && (#[trigger] laid[q]).chunk_id_str@ == all[i].chunk_id_str@;
    assert(laid[q].id() == all[i].id());
    lemma_replay_from(entries, rows, new_rows);
    assert(so_far.contains(laid[q]));
    let m = choose|m: int| 0 <= m < so_far.len() && so_far[m] == laid[q];
    assert(so_far[m].id() == so_far[j].id());
    q
}

proof fn lemma_keys_step(
    state: ProviderView,
    store_id: StoreId,
    rows: Seq<CorpusChunkRow>,
    new_rows: Seq<CorpusChunkRow>,
)
    requires
        made_from(state.entries, rows),
        made_for(state.entries, rows),
        entities_are_fixed(rows + new_rows),
    ensures
        forall|k: u128| #[trigger]
            has_key(absorbed(state, store_id, new_rows).entries, k) <==> identifies(
                rows + new_rows,
                k,
            ),
{
    let so_far = rows + new_rows;
    let laid = replayed(state.entries, new_rows);
    let after = placed_entries(laid, laid.len());
    lemma_replay_from(state.entries, rows, new_rows);
    placed_identifiers(laid, laid.len());
    assert forall|k: u128| #[trigger] has_key(after, k) <==> identifies(so_far, k) by {
        if has_key(after, k) {
            let j = choose|j: int|
                0 <= j < laid.len() && ((#[trigger] laid[j]).id() == k || static_id(
                    laid[j].entity(),
                ) == k);
            assert(so_far.contains(laid[j]));
            let m = choose|m: int| 0 <= m < so_far.len() && so_far[m] == laid[j];
            assert(so_far[m].id() == k || static_id(so_far[m].entity()) == k);
        }
        if identifies(so_far, k) {
            let j = choose|j: int|
                0 <= j < so_far.len() && ((#[trigger] so_far[j]).id() == k || static_id(
                    so_far[j].entity(),
                ) == k);
            let q = lemma_laid_for(state.entries, rows, new_rows, j);
            assert(laid[q].id() == k || static_id(laid[q].entity()) == k);
        }
    }
}

proof fn lemma_listed_step(
    state: ProviderView,
    store_id: StoreId,
    rows: Seq<CorpusChunkRow>,
    new_rows: Seq<CorpusChunkRow>,
)
    requires
        made_from(state.entries, rows),
        told_apart(rows + new_rows),
    ensures
        absorbed(state, store_id, new_rows).manifest.chunk_ids.no_duplicates(),
{
    let so_far = rows + new_rows;
    let laid = replayed(state.entries, new_rows);
    lemma_replay_from(state.entries, rows, new_rows);
    each_row_is_replayed_once(state.entries, new_rows);
    assert forall|i: int, j: int| 0 <= i < laid.len() && 0 <= j < laid.len() implies (#[trigger]
    laid[i]).id() != static_id((#[trigger] laid[j]).entity()) by {
        assert(so_far.contains(laid[i]));
        assert(so_far.contains(laid[j]));
    }
    assert forall|i: int, j: int|
        0 <= i < laid.len() && 0 <= j < laid.len() && static_id((#[trigger] laid[i]).entity())
            == static_id((#[trigger] laid[j]).entity()) implies laid[i].entity()
        == laid[j].entity() by {
        assert(so_far.contains(laid[i]));
        assert(so_far.contains(laid[j]));
    }
    assert forall|i: int, j: int| 0 <= i < j < laid.len() implies (#[trigger] laid[i]).id() != (
    #[trigger] laid[j]).id() by {
        assert(so_far.contains(laid[i]));
        assert(so_far.contains(laid[j]));
    }
    assert(identifiers_apart(laid));
    chunks_are_listed_once(laid, laid.len());
}

proof fn lemma_same_start(
    rows: Seq<CorpusChunkRow>,
    a: CorpusChunkRow,
    b: CorpusChunkRow,
)
    requires
        starts_are_fixed(rows),
        rows.contains(a),
        rows.contains(b),
        a.id() == b.id(),
    ensures
        a.chunk_start_ns == b.chunk_start_ns,
{
    let i = choose|i: int| 0 <= i < rows.len() && rows[i] == a;
    let j = choose|j: int| 0 <= j < rows.len() && rows[j] == b;
    assert(rows[i].id() == rows[j].id());
}

/// A row that is laid out and is not new has a segment with the same start.
proof fn lemma_known_start(
    state: ProviderView,
    rows: Seq<CorpusChunkRow>,
    new_rows: Seq<CorpusChunkRow>,
    row: CorpusChunkRow,
)
    requires
        state.wf(),
        made_from(state.entries, rows),
        segments_apart_from_statics(rows + new_rows),
        starts_are_fixed(rows + new_rows),
        watermark_is_latest(state),
        (rows + new_rows).contains(row),
        !is_new(state.entries, row),
    ensures
        state.watermark_ns matches Some(w) && row.chunk_start_ns <= w,
{
    let so_far = rows + new_rows;
    let p = position(state.entries, row.id());
    let known = state.entries[p].1.row;
    assert(rows.contains(known));
    let m = choose|m: int| 0 <= m < rows.len() && rows[m] == known;
    assert(so_far[m] == known);
    let q = choose|q: int| 0 <= q < so_far.len() && so_far[q] == row;
    assert(so_far[q].id() != static_id(so_far[m].entity()));
    assert(state.entries[p].1.kind == ChunkKind::Segment);
    lemma_same_start(so_far, known, row);
}

/// The row that the watermark comes from is laid out.
proof fn lemma_latest_is_laid(
    state: ProviderView,
    store_id: StoreId,
    rows: Seq<CorpusChunkRow>,
    new_rows: Seq<CorpusChunkRow>,
) -> (k: int)
    requires
        made_from(state.entries, rows),
        starts_are_fixed(rows + new_rows),
        watermark_is_latest(state),
        absorbed(state, store_id, new_rows).watermark_ns is Some,
    ensures
        0 <= k < replayed(state.entries, new_rows).len(),
        absorbed(state, store_id, new_rows).watermark_ns == Some(
            replayed(state.entries, new_rows)[k].chunk_start_ns,
        ),
{
    let after = absorbed(state, store_id, new_rows);
    let laid = replayed(state.entries, new_rows);
    lemma_raised_by(state.entries, state.watermark_ns, laid, laid.len());
    if after.watermark_ns != state.watermark_ns {
        choose|k: int|
            0 <= k < laid.len() && is_new(state.entries, #[trigger] laid[k]) && after.watermark_ns
                == Some(laid[k].chunk_start_ns)
    } else {
        let w = after.watermark_ns->0;
        let kept = segment_rows(state.entries);
        let all = kept + new_rows;
        let e = choose|e: int|
            0 <= e < state.entries.len() && (#[trigger] state.entries[e]).1.kind
                == ChunkKind::Segment && state.entries[e].1.row.chunk_start_ns == w;
        let row = state.entries[e].1.row;
        lemma_segment_rows_from(state.entries);
        assert(kept.contains(row));
        let i = choose|i: int| 0 <= i < kept.len() && kept[i] == row;
        assert(all[i] == row);
        replay_covers_rows(state.entries, new_rows);
        let k = choose|k: int|
            0 <= k < laid.len() && (#[trigger] laid[k]).chunk_id_str@ == all[i].chunk_id_str@;
        lemma_replay_from(state.entries, rows, new_rows);
        assert((rows + new_rows).contains(all[i]));
        assert((rows + new_rows).contains(laid[k]));
        lemma_same_start(rows + new_rows, all[i], laid[k]);
        k
    }
}

/// A row that is laid out has a segment with the same start.
proof fn lemma_laid_has_segment(
    laid: Seq<CorpusChunkRow>,
    so_far: Seq<CorpusChunkRow>,
    k: int,
) -> (s: int)
    requires
        0 <= k < laid.len(),
        forall|j: int| 0 <= j < laid.len() ==> so_far.contains(#[trigger] laid[j]),
        segments_apart_from_statics(so_far),
        starts_are_fixed(so_far),
    ensures
        0 <= s < placed_entries(laid, laid.len()).len(),
        placed_entries(laid, laid.len())[s].1.kind == ChunkKind::Segment,
        placed_entries(laid, laid.len())[s].1.row.chunk_start_ns == laid[k].chunk_start_ns,
{
    let after = placed_entries(laid, laid.len());
    assert forall|j: int| 0 <= j < laid.len() implies laid[k].id() != static_id(
        (#[trigger] laid[j]).entity(),
    ) by {
        assert(so_far.contains(laid[k]));
        assert(so_far.contains(laid[j]));
    }
    lemma_placed_segment(laid, laid.len(), k);
    lemma_entries_come_from_rows(laid, laid.len());
    let s = position(after, laid[k].id());
    assert(laid.contains(after[s].1.row));
    let t = choose|t: int| 0 <= t < laid.len() && laid[t] == after[s].1.row;
    assert(so_far.contains(laid[t]));
    assert(so_far.contains(laid[k]));
    lemma_same_start(so_far, laid[t], laid[k]);
    s
}

proof fn lemma_watermark_step(
    state: ProviderView,
    store_id: StoreId,
    rows: Seq<CorpusChunkRow>,
    new_rows: Seq<CorpusChunkRow>,
)
    requires
        state.wf(),
        made_from(state.entries, rows),
        segments_apart_from_statics(rows + new_rows),
        starts_are_fixed(rows + new_rows),
        watermark_is_latest(state),
    ensures
        watermark_is_latest(absorbed(state, store_id, new_rows)),
{
    let so_far = rows + new_rows;
    let laid = replayed(state.entries, new_rows);
    let after = absorbed(state, store_id, new_rows);
    lemma_replay_from(state.entries, rows, new_rows);
    lemma_entries_come_from_rows(laid, laid.len());
    lemma_raised_by(state.entries, state.watermark_ns, laid, laid.len());
    assert forall|e: int| 0 <= e < after.entries.len() implies (after.watermark_ns matches Some(w)
        && (#[trigger] after.entries[e]).1.row.chunk_start_ns <= w) by {
        assert(laid.contains(after.entries[e].1.row));
        let k = choose|k: int| 0 <= k < laid.len() && laid[k] == after.entries[e].1.row;
        assert(so_far.contains(laid[k]));
        if !is_new(state.entries, laid[k]) {
            lemma_known_start(state, rows, new_rows, laid[k]);
        }
    }
    if after.watermark_ns is Some {
        let k = lemma_latest_is_laid(state, store_id, rows, new_rows);
        let s = lemma_laid_has_segment(laid, so_far, k);
        assert(after.entries[s].1.kind == ChunkKind::Segment);
    } else if after.entries.len() > 0 {
        assert(after.entries[0].1.row.chunk_start_ns <= after.watermark_ns->0);
    }
}

/// Where the identifier of a row always comes with one start time, the watermark stays the
/// largest start time of all segments as rows are absorbed.
pub proof fn watermark_stays_latest(
    state: ProviderView,
    store_id: StoreId,
    new_rows: Seq<CorpusChunkRow>,
)
    requires
        state.wf(),
        watermark_is_latest(state),
        segments_apart_from_statics(entry_rows(state.entries) + new_rows),
        starts_are_fixed(entry_rows(state.entries) + new_rows),
    ensures
        watermark_is_latest(absorbed(state, store_id, new_rows)),
{
    let rows = entry_rows(state.entries);
    assert(made_from(state.entries, rows)) by {
        assert forall|e: int| 0 <= e < state.entries.len() implies rows.contains(
            (#[trigger] state.entries[e]).1.row,
        ) by {
            assert(rows[e] == state.entries[e].1.row);
        }
    }
    lemma_watermark_step(state, store_id, rows, new_rows);
}

proof fn lemma_made_by_scans(store_id: StoreId, scans: Seq<Seq<CorpusChunkRow>>, n: nat)
    requires
        forall|i: int|
            0 <= i < scanned_rows(scans, n).len() ==> placeable(
                #[trigger] scanned_rows(scans, n)[i],
            ),
        segments_apart_from_statics(scanned_rows(scans, n)),
    ensures
        after_scans(store_id, scans, n).wf(),
        made_from(after_scans(store_id, scans, n).entries, scanned_rows(scans, n)),
        made_for(after_scans(store_id, scans, n).entries, scanned_rows(scans, n)),
    decreases n,
{
    let rows = scanned_rows(scans, n);
    if n == 0 {
        let state = no_rows_yet(store_id);
        assert(listed_ids(state.raw_manifest.rows) =~= key_set(state.entries));
        assert(laid_out(state, Seq::empty()));
    } else {
        let m = (n - 1) as nat;
        let before = scanned_rows(scans, m);
        let state = after_scans(store_id, scans, m);
        lemma_prefix(scans, n);
        lemma_made_by_scans(store_id, scans, m);
        if scans[n - 1].len() == 0 {
            assert(rows =~= before);
        } else {
            lemma_new_rows_placeable(scans, n);
            absorbed_is_consistent(state, store_id, scans[n - 1]);
            lemma_made_step(state, store_id, before, scans[n - 1]);
        }
    }
}

proof fn lemma_prefix(scans: Seq<Seq<CorpusChunkRow>>, n: nat)
    requires
        n > 0,
    ensures
        scanned_rows(scans, n) == scanned_rows(scans, (n - 1) as nat) + scans[n - 1],
        forall|i: int|
            0 <= i < scanned_rows(scans, (n - 1) as nat).len() ==> (#[trigger] scanned_rows(
                scans,
                (n - 1) as nat,
            )[i]) == scanned_rows(scans, n)[i],
{
}

proof fn lemma_new_rows_placeable(scans: Seq<Seq<CorpusChunkRow>>, n: nat)
    requires
        n > 0,
        forall|i: int|
            0 <= i < scanned_rows(scans, n).len() ==> placeable(
                #[trigger] scanned_rows(scans, n)[i],
            ),
    ensures
        forall|i: int| 0 <= i < scans[n - 1].len() ==> placeable(#[trigger] scans[n - 1][i]),
{
    let before = scanned_rows(scans, (n - 1) as nat);
    assert forall|i: int| 0 <= i < scans[n - 1].len() implies placeable(
        #[trigger] scans[n - 1][i],
    ) by {
        assert(scanned_rows(scans, n)[before.len() + i] == scans[n - 1][i]);
    }
}

proof fn lemma_keys_by_scans(store_id: StoreId, scans: Seq<Seq<CorpusChunkRow>>, n: nat)
    requires
        forall|i: int|
            0 <= i < scanned_rows(scans, n).len() ==> placeable(
                #[trigger] scanned_rows(scans, n)[i],
            ),
        segments_apart_from_statics(scanned_rows(scans, n)),
        entities_are_fixed(scanned_rows(scans, n)),
    ensures
        forall|k: u128| #[trigger]
            has_key(after_scans(store_id, scans, n).entries, k) <==> identifies(
                scanned_rows(scans, n),
                k,
            ),
    decreases n,
{
    if n > 0 {
        let m = (n - 1) as nat;
        lemma_prefix(scans, n);
        lemma_keys_by_scans(store_id, scans, m);
        lemma_made_by_scans(store_id, scans, m);
        if scans[n - 1].len() == 0 {
            assert(scanned_rows(scans, n) =~= scanned_rows(scans, m));
        } else {
            lemma_keys_step(
                after_scans(store_id, scans, m),
                store_id,
                scanned_rows(scans, m),
                scans[n - 1],
            );
        }
    }
}

/// After any number of scans the entries are those of all rows so far, as long as no row moves to
/// another entity and no row has the identifier of an announcing chunk: one segment for each chunk
/// identifier and one announcing chunk for each entity, each stored under its own identifier. The
/// manifest lists exactly those chunks.
pub proof fn entries_are_those_of_all_rows(
    store_id: StoreId,
    scans: Seq<Seq<CorpusChunkRow>>,
    n: nat,
)
    requires
        forall|i: int|
            0 <= i < scanned_rows(scans, n).len() ==> placeable(
                #[trigger] scanned_rows(scans, n)[i],
            ),
        segments_apart_from_statics(scanned_rows(scans, n)),
        entities_are_fixed(scanned_rows(scans, n)),
    ensures
        after_scans(store_id, scans, n).wf(),
        forall|k: u128| #[trigger]
            has_key(after_scans(store_id, scans, n).entries, k) <==> identifies(
                scanned_rows(scans, n),
                k,
            ),
        forall|i: int|
            0 <= i < scanned_rows(scans, n).len() ==> has_segment(
                after_scans(store_id, scans, n).entries,
                #[trigger] scanned_rows(scans, n)[i],
            ) && has_announcement(
                after_scans(store_id, scans, n).entries,
                scanned_rows(scans, n)[i],
            ),
        forall|e: int|
            0 <= e < after_scans(store_id, scans, n).entries.len() ==> (#[trigger] after_scans(
                store_id,
                scans,
                n,
            ).entries[e]).0 == after_scans(store_id, scans, n).entries[e].1.chunk_id,
        forall|id: u128|
            after_scans(store_id, scans, n).manifest.chunk_ids.contains(id) <==> #[trigger] has_key(
                after_scans(store_id, scans, n).entries,
                id,
            ),
{
    let rows = scanned_rows(scans, n);
    let state = after_scans(store_id, scans, n);
    lemma_made_by_scans(store_id, scans, n);
    lemma_keys_by_scans(store_id, scans, n);
    assert forall|i: int| 0 <= i < rows.len() implies has_segment(
        state.entries,
        #[trigger] rows[i],
    ) && has_announcement(state.entries, rows[i]) by {
        let id = static_id(rows[i].entity());
        assert(identifies(rows, id));
        assert(has_key(state.entries, id));
        let p = position(state.entries, id);
        assert(state.entries[p].0 == id);
        assert(rows.contains(state.entries[p].1.row));
        let m = choose|m: int| 0 <= m < rows.len() && rows[m] == state.entries[p].1.row;
        assert(rows[m].id() != static_id(rows[i].entity()));
    }
    assert forall|id: u128|
        state.manifest.chunk_ids.contains(id) <==> #[trigger] has_key(state.entries, id) by {
        assert(listed_ids(state.raw_manifest.rows).contains(id) <==> key_set(
            state.entries,
        ).contains(id));
    }
}

/// After any number of scans the manifest lists no chunk twice, wherever the identifiers that are
/// derived from the rows tell them apart.
pub proof fn no_chunk_is_listed_twice(
    store_id: StoreId,
    scans: Seq<Seq<CorpusChunkRow>>,
    n: nat,
)
    requires
        forall|i: int|
            0 <= i < scanned_rows(scans, n).len() ==> placeable(
                #[trigger] scanned_rows(scans, n)[i],
            ),
        told_apart(scanned_rows(scans, n)),
    ensures
        after_scans(store_id, scans, n).manifest.chunk_ids.no_duplicates(),
    decreases n,
{
    if n > 0 {
        let m = (n - 1) as nat;
        let before = scanned_rows(scans, m);
        lemma_prefix(scans, n);
        if scans[n - 1].len() == 0 {
            assert(scanned_rows(scans, n) =~= before);
            no_chunk_is_listed_twice(store_id, scans, m);
        } else {
            lemma_made_by_scans(store_id, scans, m);
            lemma_listed_step(
                after_scans(store_id, scans, m),
                store_id,
                before,
                scans[n - 1],
            );
        }
    }
}

/// After any number of scans the watermark is the largest start time of all segments and of all
/// rows so far, and there is none exactly where there have been no rows, as long as the identifier
/// of a row always comes with one start time and is not that of an announcing chunk.
pub proof fn watermark_is_latest_of_all_rows(
    store_id: StoreId,
    scans: Seq<Seq<CorpusChunkRow>>,
    n: nat,
)
    requires
        forall|i: int|
            0 <= i < scanned_rows(scans, n).len() ==> placeable(
                #[trigger] scanned_rows(scans, n)[i],
            ),
        segments_apart_from_statics(scanned_rows(scans, n)),
        starts_are_fixed(scanned_rows(scans, n)),
    ensures
        watermark_is_latest(after_scans(store_id, scans, n)),
        match after_scans(store_id, scans, n).watermark_ns {
            Some(w) => {
                &&& exists|i: int|
                    0 <= i < scanned_rows(scans, n).len() && (#[trigger] scanned_rows(
                        scans,
                        n,
                    )[i]).chunk_start_ns == w
                &&& forall|i: int|
                    0 <= i < scanned_rows(scans, n).len() ==> (#[trigger] scanned_rows(
                        scans,
                        n,
                    )[i]).chunk_start_ns <= w
            },
            None => scanned_rows(scans, n).len() == 0,
        },
    decreases n,
{
    let rows = scanned_rows(scans, n);
    let state = after_scans(store_id, scans, n);
    lemma_made_by_scans(store_id, scans, n);
    if n > 0 {
        let m = (n - 1) as nat;
        lemma_prefix(scans, n);
        watermark_is_latest_of_all_rows(store_id, scans, m);
        if scans[n - 1].len() > 0 {
            lemma_made_by_scans(store_id, scans, m);
            lemma_watermark_step(
                after_scans(store_id, scans, m),
                store_id,
                scanned_rows(scans, m),
                scans[n - 1],
            );
        }
    }
    assert(watermark_is_latest(state));
    assert forall|i: int| 0 <= i < rows.len() implies (state.watermark_ns matches Some(w) && (
    #[trigger] rows[i]).chunk_start_ns <= w) by {
        assert(has_segment(state.entries, rows[i]));
        let p = position(state.entries, rows[i].id());
        assert(state.entries[p].1.kind == ChunkKind::Segment);
        assert(rows.contains(state.entries[p].1.row));
        let q = choose|q: int| 0 <= q < rows.len() && rows[q] == state.entries[p].1.row;
        assert(rows[q].chunk_start_ns == rows[i].chunk_start_ns);
    }
    if state.watermark_ns is Some {
        let w = state.watermark_ns->0;
        let e = choose|e: int|
            0 <= e < state.entries.len() && (#[trigger] state.entries[e]).1.kind
                == ChunkKind::Segment && state.entries[e].1.row.chunk_start_ns == w;
        assert(rows.contains(state.entries[e].1.row));
        let q = choose|q: int| 0 <= q < rows.len() && rows[q] == state.entries[e].1.row;
        assert(rows[q].chunk_start_ns == w);
    } else if rows.len() > 0 {
        assert(rows[0].chunk_start_ns <= state.watermark_ns->0);
    }
}

} // verus!
