//! What absorbing rows keeps, adds and never does.

use crate::corpus::provider::{
    absorbed, any_new, is_new, lemma_segment_rows_from, listed_ids, manifest_lists_entries,
    next_revision, placed_identifiers, raised_by, replay_covers_rows, ProviderView,
};
use crate::corpus::replay::{
    entity_seen, entries_wf, placed_entries, replayed, segment_entry, segment_rows,
    segments_apart_from_statics, static_entry, static_id, ChunkKind, ManifestEntry,
};
use crate::corpus::row::CorpusChunkRow;
use crate::id_map::{has_key, key_set, lemma_upsert, lookup, position, unique_keys, upsert};
use crate::manifest::StoreId;
use vstd::prelude::*;

verus! {

/// A row that is laid out and is not there yet has just come.
proof fn lemma_new_row_came(state: ProviderView, new_rows: Seq<CorpusChunkRow>, k: int)
    requires
        state.wf(),
        0 <= k < replayed(state.entries, new_rows).len(),
        is_new(state.entries, replayed(state.entries, new_rows)[k]),
    ensures
        new_rows.contains(replayed(state.entries, new_rows)[k]),
{
    let row = replayed(state.entries, new_rows)[k];
    let kept = segment_rows(state.entries);
    let all = kept + new_rows;
    replay_covers_rows(state.entries, new_rows);
    assert(all.contains(row));
    let i = choose|i: int| 0 <= i < all.len() && all[i] == row;
    if i < kept.len() {
        lemma_segment_rows_from(state.entries);
        assert(kept[i] == row);
        let e = choose|e: int|
            0 <= e < state.entries.len() && (#[trigger] state.entries[e]).1.kind
                == ChunkKind::Segment && state.entries[e].1.row == kept[i];
        assert(state.entries[e].0 == row.id());
    } else {
        assert(new_rows[i - kept.len()] == row);
    }
}

/// A row that has just come is laid out, or one with the same identifier in its place.
proof fn lemma_came_row_is_laid(
    entries: Seq<(u128, ManifestEntry)>,
    new_rows: Seq<CorpusChunkRow>,
    j: int,
) -> (k: int)
    requires
        0 <= j < new_rows.len(),
    ensures
        0 <= k < replayed(entries, new_rows).len(),
        replayed(entries, new_rows)[k].id() == new_rows[j].id(),
{
    let all = segment_rows(entries) + new_rows;
    let i = segment_rows(entries).len() + j;
    let rows = replayed(entries, new_rows);
    replay_covers_rows(entries, new_rows);
    assert(all[i] == new_rows[j]);
    choose|k: int|
        0 <= k < rows.len() && (#[trigger] rows[k]).chunk_id_str@ == all[i].chunk_id_str@
}

/// The revision goes up by one exactly when one of the rows that came was not there before, and
/// stays otherwise.
pub proof fn revision_counts_new_rows(
    state: ProviderView,
    store_id: StoreId,
    new_rows: Seq<CorpusChunkRow>,
)
    requires
        state.wf(),
    ensures
        absorbed(state, store_id, new_rows).revision == (if any_new(
            state.entries,
            new_rows,
            new_rows.len(),
        ) {
            next_revision(state.revision)
        } else {
            state.revision
        }),
{
    let rows = replayed(state.entries, new_rows);
    if any_new(state.entries, rows, rows.len()) {
        let k = choose|k: int| 0 <= k < rows.len() && is_new(state.entries, #[trigger] rows[k]);
        lemma_new_row_came(state, new_rows, k);
        let j = choose|j: int| 0 <= j < new_rows.len() && new_rows[j] == rows[k];
        assert(is_new(state.entries, new_rows[j]));
    }
    if any_new(state.entries, new_rows, new_rows.len()) {
        let j = choose|j: int|
            0 <= j < new_rows.len() && is_new(state.entries, #[trigger] new_rows[j]);
        let k = lemma_came_row_is_laid(state.entries, new_rows, j);
        assert(is_new(state.entries, rows[k]));
    }
}

pub(crate) proof fn lemma_raised_by(
    entries: Seq<(u128, ManifestEntry)>,
    watermark: Option<i64>,
    rows: Seq<CorpusChunkRow>,
    n: nat,
)
    requires
        n <= rows.len(),
    ensures
        watermark matches Some(w) ==> raised_by(entries, watermark, rows, n) matches Some(v) && v
            >= w,
        forall|i: int|
            0 <= i < n && is_new(entries, #[trigger] rows[i]) ==> (raised_by(
                entries,
                watermark,
                rows,
                n,
            ) matches Some(v) && v >= rows[i].chunk_start_ns),
        raised_by(entries, watermark, rows, n) != watermark ==> exists|i: int|
            0 <= i < n && is_new(entries, #[trigger] rows[i]) && raised_by(
                entries,
                watermark,
                rows,
                n,
            ) == Some(rows[i].chunk_start_ns),
    decreases n,
{
    if n > 0 {
        lemma_raised_by(entries, watermark, rows, (n - 1) as nat);
        if is_new(entries, rows[n - 1]) && raised_by(entries, watermark, rows, n) == Some(
            rows[n - 1].chunk_start_ns,
        ) {
            assert(is_new(entries, rows[n - 1]));
        }
    }
}

/// The watermark never falls. It is at least the start time of every new row that is laid out,
/// and where it moves it moves to the start time of one of them.
pub proof fn watermark_is_largest_start(
    state: ProviderView,
    store_id: StoreId,
    new_rows: Seq<CorpusChunkRow>,
)
    ensures
        state.watermark_ns matches Some(w) ==> absorbed(
            state,
            store_id,
            new_rows,
        ).watermark_ns matches Some(v) && v >= w,
        forall|i: int|
            0 <= i < replayed(state.entries, new_rows).len() && is_new(
                state.entries,
                #[trigger] replayed(state.entries, new_rows)[i],
            ) ==> (absorbed(state, store_id, new_rows).watermark_ns matches Some(v) && v
                >= replayed(state.entries, new_rows)[i].chunk_start_ns),
        absorbed(state, store_id, new_rows).watermark_ns != state.watermark_ns ==> exists|i: int|
            0 <= i < replayed(state.entries, new_rows).len() && is_new(
                state.entries,
                #[trigger] replayed(state.entries, new_rows)[i],
            ) && absorbed(state, store_id, new_rows).watermark_ns == Some(
                replayed(state.entries, new_rows)[i].chunk_start_ns,
            ),
{
    let rows = replayed(state.entries, new_rows);
    lemma_raised_by(state.entries, state.watermark_ns, rows, rows.len());
}

/// Rows that were there before neither count as news nor move the watermark.
pub proof fn known_rows_are_no_news(
    state: ProviderView,
    store_id: StoreId,
    new_rows: Seq<CorpusChunkRow>,
)
    requires
        state.wf(),
        forall|i: int|
            0 <= i < new_rows.len() ==> has_key(state.entries, (#[trigger] new_rows[i]).id()),
    ensures
        absorbed(state, store_id, new_rows).revision == state.revision,
        absorbed(state, store_id, new_rows).watermark_ns == state.watermark_ns,
{
    revision_counts_new_rows(state, store_id, new_rows);
    let rows = replayed(state.entries, new_rows);
    lemma_raised_by(state.entries, state.watermark_ns, rows, rows.len());
    assert forall|k: int| 0 <= k < rows.len() implies !is_new(
        state.entries,
        #[trigger] rows[k],
    ) by {
        if is_new(state.entries, rows[k]) {
            lemma_new_row_came(state, new_rows, k);
        }
    }
}

/// Absorbing rows never takes a segment away, and makes every row that came available: each has
/// an entry afterwards.
pub proof fn segments_stay(state: ProviderView, store_id: StoreId, new_rows: Seq<CorpusChunkRow>)
    requires
        state.wf(),
    ensures
        forall|e: int|
            0 <= e < state.entries.len() && (#[trigger] state.entries[e]).1.kind
                == ChunkKind::Segment ==> has_key(
                absorbed(state, store_id, new_rows).entries,
                state.entries[e].0,
            ),
        forall|i: int|
            0 <= i < new_rows.len() ==> has_key(
                absorbed(state, store_id, new_rows).entries,
                (#[trigger] new_rows[i]).id(),
            ),
{
    let rows = replayed(state.entries, new_rows);
    let kept = segment_rows(state.entries);
    let all = kept + new_rows;
    replay_covers_rows(state.entries, new_rows);
    lemma_segment_rows_from(state.entries);
    placed_identifiers(rows, rows.len());
    let after = placed_entries(rows, rows.len());
    assert forall|i: int| 0 <= i < all.len() implies has_key(after, (#[trigger] all[i]).id()) by {
        let k = choose|k: int|
            0 <= k < rows.len() && (#[trigger] rows[k]).chunk_id_str@ == all[i].chunk_id_str@;
        assert(rows[k].id() == all[i].id());
    }
    assert forall|e: int|
        0 <= e < state.entries.len() && (#[trigger] state.entries[e]).1.kind
            == ChunkKind::Segment implies has_key(after, state.entries[e].0) by {
        assert(kept.contains(state.entries[e].1.row));
        let i = choose|i: int| 0 <= i < kept.len() && kept[i] == state.entries[e].1.row;
        assert(all[i].id() == state.entries[e].0);
    }
    assert forall|i: int| 0 <= i < new_rows.len() implies has_key(
        after,
        (#[trigger] new_rows[i]).id(),
    ) by {
        assert(all[kept.len() + i] == new_rows[i]);
    }
}

pub(crate) proof fn lemma_placed_segment(rows: Seq<CorpusChunkRow>, n: nat, i: int)
    requires
        0 <= i < n <= rows.len(),
        forall|j: int| 0 <= j < rows.len() ==> rows[i].id() != static_id(
            (#[trigger] rows[j]).entity(),
        ),
    ensures
        lookup(placed_entries(rows, n), rows[i].id()) matches Some(e) && e.kind
            == ChunkKind::Segment && e.row.id() == rows[i].id(),
    decreases n,
{
    let m = (n - 1) as nat;
    let id = rows[i].id();
    let row = rows[n - 1];
    let before = placed_entries(rows, m);
    placed_identifiers(rows, m);
    lemma_upsert(before, static_id(row.entity()), static_entry(row));
    let announced = if entity_seen(rows, m, row.entity()) {
        before
    } else {
        upsert(before, static_id(row.entity()), static_entry(row))
    };
    lemma_upsert(announced, row.id(), segment_entry(row));
    assert(lookup(announced, id) == lookup(before, id));
    if row.id() != id {
        lemma_placed_segment(rows, m, i);
        assert(lookup(placed_entries(rows, n), id) == lookup(announced, id));
    }
}

/// Where no row has the identifier of an announcing chunk, each row that was there or came can
/// be built afterwards: its identifier leads to a segment entry for a row with that identifier.
pub proof fn rows_can_be_built(
    state: ProviderView,
    store_id: StoreId,
    new_rows: Seq<CorpusChunkRow>,
)
    requires
        state.wf(),
        segments_apart_from_statics(segment_rows(state.entries) + new_rows),
    ensures
        forall|i: int|
            0 <= i < (segment_rows(state.entries) + new_rows).len() ==> (lookup(
                absorbed(state, store_id, new_rows).entries,
                (#[trigger] (segment_rows(state.entries) + new_rows)[i]).id(),
            ) matches Some(e) && e.kind == ChunkKind::Segment && e.row.id() == (segment_rows(
                state.entries,
            ) + new_rows)[i].id()),
{
    let rows = replayed(state.entries, new_rows);
    let all = segment_rows(state.entries) + new_rows;
    replay_covers_rows(state.entries, new_rows);
    assert(segments_apart_from_statics(rows)) by {
        assert forall|i: int, j: int| 0 <= i < rows.len() && 0 <= j < rows.len() implies (
        #[trigger] rows[i]).id() != static_id((#[trigger] rows[j]).entity()) by {
            assert(all.contains(rows[i]));
            assert(all.contains(rows[j]));
        }
    }
    assert forall|i: int| 0 <= i < all.len() implies (lookup(
        placed_entries(rows, rows.len()),
        (#[trigger] all[i]).id(),
    ) matches Some(e) && e.kind == ChunkKind::Segment && e.row.id() == all[i].id()) by {
        let k = choose|k: int|
            0 <= k < rows.len() && (#[trigger] rows[k]).chunk_id_str@ == all[i].chunk_id_str@;
        assert(rows[k].id() == all[i].id());
        lemma_placed_segment(rows, rows.len(), k);
    }
}

proof fn lemma_same_id_same_segment(
    entries: Seq<(u128, ManifestEntry)>,
    a: CorpusChunkRow,
    b: CorpusChunkRow,
)
    requires
        entries_wf(entries),
        unique_keys(entries),
        segment_rows(entries).contains(a),
        segment_rows(entries).contains(b),
        a.id() == b.id(),
    ensures
        a == b,
{
    lemma_segment_rows_from(entries);
    let rows = segment_rows(entries);
    let i = choose|i: int| 0 <= i < rows.len() && rows[i] == a;
    let j = choose|j: int| 0 <= j < rows.len() && rows[j] == b;
    assert(rows[i] == a && rows[j] == b);
    let k = choose|k: int|
        0 <= k < entries.len() && (#[trigger] entries[k]).1.kind == ChunkKind::Segment
            && entries[k].1.row == rows[i];
    let l = choose|l: int|
        0 <= l < entries.len() && (#[trigger] entries[l]).1.kind == ChunkKind::Segment
            && entries[l].1.row == rows[j];
    assert(entries[k].0 == entries[l].0);
    assert(k == l);
}

proof fn lemma_same_rows_same_keys(a: Seq<CorpusChunkRow>, b: Seq<CorpusChunkRow>)
    requires
        forall|i: int| 0 <= i < a.len() ==> b.contains(#[trigger] a[i]),
    ensures
        forall|k: u128| #[trigger]
            has_key(placed_entries(a, a.len()), k) ==> has_key(placed_entries(b, b.len()), k),
{
    placed_identifiers(a, a.len());
    placed_identifiers(b, b.len());
    assert forall|k: u128| #[trigger] has_key(placed_entries(a, a.len()), k) implies has_key(
        placed_entries(b, b.len()),
        k,
    ) by {
        let i = choose|i: int|
            0 <= i < a.len() && ((#[trigger] a[i]).id() == k || static_id(a[i].entity()) == k);
        assert(b.contains(a[i]));
        let j = choose|j: int| 0 <= j < b.len() && b[j] == a[i];
        assert(b[j].id() == k || static_id(b[j].entity()) == k);
    }
}

proof fn lemma_replay_of_known(
    entries: Seq<(u128, ManifestEntry)>,
    x: Seq<CorpusChunkRow>,
    y: Seq<CorpusChunkRow>,
)
    requires
        entries_wf(entries),
        unique_keys(entries),
        forall|i: int| 0 <= i < x.len() ==> segment_rows(entries).contains(#[trigger] x[i]),
        forall|i: int| 0 <= i < y.len() ==> segment_rows(entries).contains(#[trigger] y[i]),
    ensures
        forall|i: int|
            0 <= i < replayed(entries, x).len() ==> replayed(entries, y).contains(
                #[trigger] replayed(entries, x)[i],
            ),
{
    let kept = segment_rows(entries);
    let a = replayed(entries, x);
    let b = replayed(entries, y);
    let all_a = kept + x;
    let all_b = kept + y;
    replay_covers_rows(entries, x);
    replay_covers_rows(entries, y);
    assert forall|i: int| 0 <= i < a.len() implies b.contains(#[trigger] a[i]) by {
        assert(all_a.contains(a[i]));
        let p = choose|p: int| 0 <= p < all_a.len() && all_a[p] == a[i];
        if p >= kept.len() {
            assert(x[p - kept.len()] == a[i]);
        } else {
            assert(kept[p] == a[i]);
        }
        assert(kept.contains(a[i]));
        let j = choose|j: int| 0 <= j < kept.len() && kept[j] == a[i];
        assert(all_b[j] == a[i]);
        let k = choose|k: int|
            0 <= k < b.len() && (#[trigger] b[k]).chunk_id_str@ == all_b[j].chunk_id_str@;
        assert(all_b.contains(b[k]));
        let q = choose|q: int| 0 <= q < all_b.len() && all_b[q] == b[k];
        if q >= kept.len() {
            assert(y[q - kept.len()] == b[k]);
        } else {
            assert(kept[q] == b[k]);
        }
        assert(kept.contains(b[k]));
        lemma_same_id_same_segment(entries, a[i], b[k]);
    }
}

/// Absorbing rows that are already there leads to the same chunks as absorbing none.
pub proof fn rows_already_there_add_nothing(
    state: ProviderView,
    store_id: StoreId,
    new_rows: Seq<CorpusChunkRow>,
)
    requires
        state.wf(),
        forall|i: int|
            0 <= i < new_rows.len() ==> segment_rows(state.entries).contains(
                #[trigger] new_rows[i],
            ),
    ensures
        key_set(absorbed(state, store_id, new_rows).entries) == key_set(
            absorbed(state, store_id, Seq::empty()).entries,
        ),
{
    let none = Seq::<CorpusChunkRow>::empty();
    lemma_replay_of_known(state.entries, new_rows, none);
    lemma_replay_of_known(state.entries, none, new_rows);
    lemma_same_rows_same_keys(replayed(state.entries, new_rows), replayed(state.entries, none));
    lemma_same_rows_same_keys(replayed(state.entries, none), replayed(state.entries, new_rows));
    assert(key_set(absorbed(state, store_id, new_rows).entries) =~= key_set(
        absorbed(state, store_id, none).entries,
    ));
}

pub(crate) proof fn lemma_entries_come_from_rows(rows: Seq<CorpusChunkRow>, n: nat)
    requires
        n <= rows.len(),
    ensures
        forall|e: int|
            0 <= e < placed_entries(rows, n).len() ==> rows.contains(
                (#[trigger] placed_entries(rows, n)[e]).1.row,
            ),
    decreases n,
{
    if n > 0 {
        let m = (n - 1) as nat;
        lemma_entries_come_from_rows(rows, m);
        let row = rows[n - 1];
        let before = placed_entries(rows, m);
        let announced = if entity_seen(rows, m, row.entity()) {
            before
        } else {
            upsert(before, static_id(row.entity()), static_entry(row))
        };
        let after = placed_entries(rows, n);
        assert(rows.contains(row));
        assert forall|e: int| 0 <= e < announced.len() implies rows.contains(
            (#[trigger] announced[e]).1.row,
        ) by {
            if e < before.len() && announced[e] == before[e] {
                assert(rows.contains(before[e].1.row));
            } else {
                assert(announced[e].1 == static_entry(row));
            }
        }
        assert forall|e: int| 0 <= e < after.len() implies rows.contains(
            (#[trigger] after[e]).1.row,
        ) by {
            if e < announced.len() && after[e] == announced[e] {
                assert(rows.contains(announced[e].1.row));
            } else {
                assert(after[e].1 == segment_entry(row));
            }
        }
    }
}

/// Whether rows with the same chunk identifier belong to the same entity.
pub open spec fn entities_are_fixed(rows: Seq<CorpusChunkRow>) -> bool {
    forall|i: int, j: int|
        0 <= i < rows.len() && 0 <= j < rows.len() && (#[trigger] rows[i]).id() == (#[trigger]
        rows[j]).id() ==> rows[i].entity() == rows[j].entity()
}

/// Whether one of the segments among `entries` belongs to an entity.
pub open spec fn has_segment_of(entries: Seq<(u128, ManifestEntry)>, entity: Seq<char>) -> bool {
    exists|s: int|
        0 <= s < entries.len() && (#[trigger] entries[s]).1.kind == ChunkKind::Segment
            && entries[s].1.row.entity() == entity
}

/// Whether every entity that is announced has a segment.
pub open spec fn announcements_are_backed(entries: Seq<(u128, ManifestEntry)>) -> bool {
    forall|e: int|
        0 <= e < entries.len() && (#[trigger] entries[e]).1.kind == ChunkKind::Static
            ==> has_segment_of(entries, entries[e].1.row.entity())
}

proof fn lemma_rows_have_segments(rows: Seq<CorpusChunkRow>, k: int)
    requires
        0 <= k < rows.len(),
        forall|j: int| 0 <= j < rows.len() ==> rows[k].id() != static_id(
            (#[trigger] rows[j]).entity(),
        ),
        entities_are_fixed(rows),
    ensures
        has_segment_of(placed_entries(rows, rows.len()), rows[k].entity()),
{
    let after = placed_entries(rows, rows.len());
    let row = rows[k];
    lemma_placed_segment(rows, rows.len(), k);
    lemma_entries_come_from_rows(rows, rows.len());
    assert(has_key(after, row.id()));
    let s = position(after, row.id());
    assert(lookup(after, row.id()) == Some(after[s].1));
    assert(rows.contains(after[s].1.row));
    let m = choose|m: int| 0 <= m < rows.len() && rows[m] == after[s].1.row;
    assert(rows[m].id() == rows[k].id());
}

proof fn lemma_replay_keeps_rules(
    entries: Seq<(u128, ManifestEntry)>,
    new_rows: Seq<CorpusChunkRow>,
)
    requires
        segments_apart_from_statics(segment_rows(entries) + new_rows),
        entities_are_fixed(segment_rows(entries) + new_rows),
    ensures
        segments_apart_from_statics(replayed(entries, new_rows)),
        entities_are_fixed(replayed(entries, new_rows)),
{
    let rows = replayed(entries, new_rows);
    let all = segment_rows(entries) + new_rows;
    replay_covers_rows(entries, new_rows);
    assert forall|i: int, j: int| 0 <= i < rows.len() && 0 <= j < rows.len() implies (#[trigger]
    rows[i]).id() != static_id((#[trigger] rows[j]).entity()) by {
        assert(all.contains(rows[i]));
        assert(all.contains(rows[j]));
    }
    assert forall|i: int, j: int|
        0 <= i < rows.len() && 0 <= j < rows.len() && (#[trigger] rows[i]).id() == (#[trigger]
        rows[j]).id() implies rows[i].entity() == rows[j].entity() by {
        assert(all.contains(rows[i]));
        assert(all.contains(rows[j]));
    }
}

/// After rows have been absorbed, every entity that is announced has a segment.
pub proof fn absorbed_announcements_are_backed(
    state: ProviderView,
    store_id: StoreId,
    new_rows: Seq<CorpusChunkRow>,
)
    requires
        state.wf(),
        segments_apart_from_statics(segment_rows(state.entries) + new_rows),
        entities_are_fixed(segment_rows(state.entries) + new_rows),
    ensures
        announcements_are_backed(absorbed(state, store_id, new_rows).entries),
{
    let rows = replayed(state.entries, new_rows);
    let after = placed_entries(rows, rows.len());
    lemma_replay_keeps_rules(state.entries, new_rows);
    lemma_entries_come_from_rows(rows, rows.len());
    assert forall|e: int|
        0 <= e < after.len() && (#[trigger] after[e]).1.kind
            == ChunkKind::Static implies has_segment_of(after, after[e].1.row.entity()) by {
        assert(rows.contains(after[e].1.row));
        let k = choose|k: int| 0 <= k < rows.len() && rows[k] == after[e].1.row;
        lemma_rows_have_segments(rows, k);
    }
}

/// Absorbing rows only ever adds to the manifest: every chunk that it listed it goes on listing,
/// as long as no row moves to another entity.
pub proof fn manifest_only_grows(
    state: ProviderView,
    store_id: StoreId,
    new_rows: Seq<CorpusChunkRow>,
)
    requires
        state.wf(),
        announcements_are_backed(state.entries),
        entities_are_fixed(segment_rows(state.entries) + new_rows),
    ensures
        listed_ids(state.raw_manifest.rows).subset_of(
            listed_ids(absorbed(state, store_id, new_rows).raw_manifest.rows),
        ),
{
    let rows = replayed(state.entries, new_rows);
    let kept = segment_rows(state.entries);
    let all = kept + new_rows;
    let after = absorbed(state, store_id, new_rows);
    replay_covers_rows(state.entries, new_rows);
    lemma_segment_rows_from(state.entries);
    placed_identifiers(rows, rows.len());
    manifest_lists_entries(rows, rows.len());
    segments_stay(state, store_id, new_rows);
    assert forall|id: u128| #[trigger] listed_ids(state.raw_manifest.rows).contains(
        id,
    ) implies listed_ids(after.raw_manifest.rows).contains(id) by {
        assert(key_set(state.entries).contains(id));
        let e = position(state.entries, id);
        assert(state.entries[e].0 == id);
        if state.entries[e].1.kind == ChunkKind::Static {
            let entity = state.entries[e].1.row.entity();
            let s = choose|s: int|
                0 <= s < state.entries.len() && (#[trigger] state.entries[s]).1.kind
                    == ChunkKind::Segment && state.entries[s].1.row.entity() == entity;
            let row = state.entries[s].1.row;
            assert(kept.contains(row));
            let i = choose|i: int| 0 <= i < kept.len() && kept[i] == row;
            assert(all[i] == row);
            let k = choose|k: int|
                0 <= k < rows.len() && (#[trigger] rows[k]).chunk_id_str@ == all[i].chunk_id_str@;
            assert(all.contains(rows[k]));
            let m = choose|m: int| 0 <= m < all.len() && all[m] == rows[k];
            assert(all[m].id() == all[i].id());
            assert(static_id(rows[k].entity()) == id);
        }
        assert(has_key(after.entries, id));
        assert(key_set(after.entries).contains(id));
    }
}

} // verus!
