//! The provider's state: which chunks exist and how to build each of them.

use crate::corpus::chunk_builder::placeable;
use crate::corpus::config::CorpusConfig;
use crate::corpus::order::{
    by_start, distinct_identifiers, has_identifier, in_order, ordering_is_stable,
    ordering_keeps_rows, repeats_are_kept_once,
};
use crate::corpus::replay::{
    entity_seen, entries_wf, identifiers_apart, lemma_placed_entries, place_rows, placed_entries,
    placed_rows, replay_rows, replayed, segment_entry, segment_rows, static_entry, static_id,
    ChunkKind, ManifestEntry,
};
use crate::corpus::row::CorpusChunkRow;
use crate::id_map::{has_key, key_set, lemma_upsert, unique_keys, upsert, IdMap};
use crate::manifest::{
    prepared, row_ids, ManifestRow, ManifestRowView, ManifestView, RawManifestView,
    RawRrdManifest, RrdManifest, StoreId, StoreKind,
};
use std::sync::Arc;
use vstd::prelude::*;

verus! {

/// What the provider knows. The fields change together: a reader sees all of a poll or nothing
/// of it.
pub struct ProviderState {
    pub raw_manifest: Arc<RawRrdManifest>,
    pub manifest: Arc<RrdManifest>,
    pub entries: IdMap<ManifestEntry>,
    /// Largest start time absorbed so far, after which a poll looks for new rows.
    pub watermark_ns: Option<i64>,
    /// Counts the polls that brought something new.
    pub revision: u64,
}

/// What a provider state holds.
#[verifier::ext_equal]
pub struct ProviderView {
    pub raw_manifest: RawManifestView,
    pub manifest: ManifestView,
    pub entries: Seq<(u128, ManifestEntry)>,
    pub watermark_ns: Option<i64>,
    pub revision: u64,
}

impl View for ProviderState {
    type V = ProviderView;

    open spec fn view(&self) -> ProviderView {
        ProviderView {
            raw_manifest: self.raw_manifest@,
            manifest: self.manifest@,
            entries: self.entries@,
            watermark_ns: self.watermark_ns,
            revision: self.revision,
        }
    }
}

/// The identifiers that a manifest lists, as a set.
pub open spec fn listed_ids(rows: Seq<ManifestRowView>) -> Set<u128> {
    Set::new(|id: u128| row_ids(rows).contains(id))
}

/// Whether `state` is what `rows` are laid out as. They are in time order and no two have the
/// same chunk identifier, so that the manifest lists no chunk twice, wherever the identifiers
/// derived from them are distinct.
pub open spec fn laid_out(state: ProviderView, rows: Seq<CorpusChunkRow>) -> bool {
    &&& in_order(rows)
    &&& distinct_identifiers(rows)
    &&& state.entries == placed_entries(rows, rows.len())
    &&& state.raw_manifest.rows == placed_rows(rows, rows.len())
    &&& identifiers_apart(rows) ==> state.manifest.chunk_ids.no_duplicates()
}

impl ProviderView {
    /// The manifest lists exactly the chunks that there are entries for, and every entry can be
    /// built. Both are laid out from rows of which each is there once.
    pub open spec fn wf(self) -> bool {
        &&& exists|rows: Seq<CorpusChunkRow>| #[trigger] laid_out(self, rows)
        &&& unique_keys(self.entries)
        &&& entries_wf(self.entries)
        &&& self.manifest == prepared(self.raw_manifest)
        &&& listed_ids(self.raw_manifest.rows) == key_set(self.entries)
    }
}

/// The store that a configuration names.
pub open spec fn store_of(config: CorpusConfig) -> StoreId {
    StoreId {
        kind: StoreKind::Recording,
        application_id: config.application_id,
        recording_id: config.recording_id,
    }
}

/// Whether `row` is not among `entries` yet.
pub open spec fn is_new(entries: Seq<(u128, ManifestEntry)>, row: CorpusChunkRow) -> bool {
    !has_key(entries, row.id())
}

/// The larger of a watermark and a start time.
pub open spec fn raised(watermark: Option<i64>, start: i64) -> i64 {
    match watermark {
        Some(w) => if w >= start {
            w
        } else {
            start
        },
        None => start,
    }
}

/// The watermark after the first `n` of `rows`: those that are new raise it to their start time.
pub open spec fn raised_by(
    entries: Seq<(u128, ManifestEntry)>,
    watermark: Option<i64>,
    rows: Seq<CorpusChunkRow>,
    n: nat,
) -> Option<i64>
    decreases n,
{
    if n == 0 {
        watermark
    } else {
        let before = raised_by(entries, watermark, rows, (n - 1) as nat);
        if is_new(entries, rows[n - 1]) {
            Some(raised(before, rows[n - 1].chunk_start_ns))
        } else {
            before
        }
    }
}

/// Whether one of the first `n` of `rows` is new.
pub open spec fn any_new(
    entries: Seq<(u128, ManifestEntry)>,
    rows: Seq<CorpusChunkRow>,
    n: nat,
) -> bool {
    exists|i: int| 0 <= i < n && is_new(entries, #[trigger] rows[i])
}

/// The revision after `revision`.
pub open spec fn next_revision(revision: u64) -> u64 {
    if revision == u64::MAX {
        0
    } else {
        (revision + 1) as u64
    }
}

/// The state after `new_rows` have been absorbed.
pub open spec fn absorbed(
    state: ProviderView,
    store_id: StoreId,
    new_rows: Seq<CorpusChunkRow>,
) -> ProviderView {
    let rows = replayed(state.entries, new_rows);
    let raw_manifest = RawManifestView { store_id, rows: placed_rows(rows, rows.len()) };
    ProviderView {
        raw_manifest,
        manifest: prepared(raw_manifest),
        entries: placed_entries(rows, rows.len()),
        watermark_ns: raised_by(state.entries, state.watermark_ns, rows, rows.len()),
        revision: if any_new(state.entries, rows, rows.len()) {
            next_revision(state.revision)
        } else {
            state.revision
        },
    }
}

/// The state before any row has been absorbed.
pub open spec fn no_rows_yet(store_id: StoreId) -> ProviderView {
    let raw_manifest = RawManifestView { store_id, rows: Seq::empty() };
    ProviderView {
        raw_manifest,
        manifest: prepared(raw_manifest),
        entries: Seq::empty(),
        watermark_ns: None,
        revision: 0,
    }
}

/// Every row that is laid out is one of those that were there or came, and each of those is laid
/// out, or one with the same chunk identifier in its place.
pub proof fn replay_covers_rows(
    entries: Seq<(u128, ManifestEntry)>,
    new_rows: Seq<CorpusChunkRow>,
)
    ensures
        forall|k: int|
            0 <= k < replayed(entries, new_rows).len() ==> (segment_rows(entries)
                + new_rows).contains(#[trigger] replayed(entries, new_rows)[k]),
        forall|i: int|
            0 <= i < (segment_rows(entries) + new_rows).len() ==> exists|k: int|
                0 <= k < replayed(entries, new_rows).len() && (#[trigger] replayed(
                    entries,
                    new_rows,
                )[k]).chunk_id_str@ == (#[trigger] (segment_rows(entries)
                    + new_rows)[i]).chunk_id_str@,
{
    let all = segment_rows(entries) + new_rows;
    let sorted = by_start(all);
    let rows = replayed(entries, new_rows);
    repeats_are_kept_once(sorted);
    assert forall|k: int| 0 <= k < rows.len() implies all.contains(#[trigger] rows[k]) by {
        assert(sorted.contains(rows[k]));
        ordering_keeps_rows(all, rows[k]);
    }
    assert forall|i: int| 0 <= i < all.len() implies exists|k: int|
        0 <= k < rows.len() && (#[trigger] rows[k]).chunk_id_str@ == (#[trigger]
        all[i]).chunk_id_str@ by {
        ordering_keeps_rows(all, all[i]);
        assert(all.contains(all[i]));
        let m = choose|m: int| 0 <= m < sorted.len() && sorted[m] == all[i];
        assert(sorted[m].chunk_id_str@ == all[i].chunk_id_str@);
        assert(has_identifier(sorted, all[i].chunk_id_str@));
        assert(has_identifier(rows, all[i].chunk_id_str@));
    }
}

/// The rows that are laid out are in time order, and no two have the same chunk identifier.
pub proof fn each_row_is_replayed_once(
    entries: Seq<(u128, ManifestEntry)>,
    new_rows: Seq<CorpusChunkRow>,
)
    ensures
        in_order(replayed(entries, new_rows)),
        distinct_identifiers(replayed(entries, new_rows)),
        replayed(entries, new_rows).len() <= segment_rows(entries).len() + new_rows.len(),
{
    let all = segment_rows(entries) + new_rows;
    ordering_is_stable(all);
    repeats_are_kept_once(by_start(all));
}

pub proof fn lemma_segment_rows_from(entries: Seq<(u128, ManifestEntry)>)
    ensures
        segment_rows(entries).len() <= entries.len(),
        forall|i: int|
            0 <= i < segment_rows(entries).len() ==> exists|k: int|
                0 <= k < entries.len() && (#[trigger] entries[k]).1.kind == ChunkKind::Segment
                    && entries[k].1.row == #[trigger] segment_rows(entries)[i],
        forall|k: int|
            0 <= k < entries.len() && (#[trigger] entries[k]).1.kind == ChunkKind::Segment
                ==> segment_rows(entries).contains(entries[k].1.row),
    decreases entries.len(),
{
    if entries.len() > 0 {
        let before = entries.drop_last();
        lemma_segment_rows_from(before);
        let rows = segment_rows(entries);
        let rows_before = segment_rows(before);
        assert forall|i: int| 0 <= i < rows.len() implies exists|k: int|
            0 <= k < entries.len() && (#[trigger] entries[k]).1.kind == ChunkKind::Segment
                && entries[k].1.row == #[trigger] rows[i] by {
            if i < rows_before.len() {
                assert(rows[i] == rows_before[i]);
                let k = choose|k: int|
                    0 <= k < before.len() && (#[trigger] before[k]).1.kind == ChunkKind::Segment
                        && before[k].1.row == rows_before[i];
                assert(entries[k] == before[k]);
            } else {
                assert(entries[entries.len() - 1].1.row == rows[i]);
            }
        }
        assert forall|k: int|
            0 <= k < entries.len() && (#[trigger] entries[k]).1.kind
                == ChunkKind::Segment implies rows.contains(entries[k].1.row) by {
            if k < before.len() {
                assert(before[k] == entries[k]);
                let i = choose|i: int|
                    0 <= i < rows_before.len() && rows_before[i] == before[k].1.row;
                assert(rows[i] == rows_before[i]);
            } else {
                assert(rows[rows.len() - 1] == entries[k].1.row);
            }
        }
    }
}

proof fn lemma_replayed_placeable(
    entries: Seq<(u128, ManifestEntry)>,
    new_rows: Seq<CorpusChunkRow>,
)
    requires
        entries_wf(entries),
        forall|i: int| 0 <= i < new_rows.len() ==> placeable(#[trigger] new_rows[i]),
    ensures
        forall|k: int|
            0 <= k < replayed(entries, new_rows).len() ==> placeable(
                #[trigger] replayed(entries, new_rows)[k],
            ),
{
    let rows = replayed(entries, new_rows);
    let kept = segment_rows(entries);
    let all = kept + new_rows;
    replay_covers_rows(entries, new_rows);
    lemma_segment_rows_from(entries);
    assert forall|k: int| 0 <= k < rows.len() implies placeable(#[trigger] rows[k]) by {
        assert(all.contains(rows[k]));
        let i = choose|i: int| 0 <= i < all.len() && all[i] == rows[k];
        if i < kept.len() {
            assert(kept[i] == rows[k]);
            let e = choose|e: int|
                0 <= e < entries.len() && (#[trigger] entries[e]).1.kind == ChunkKind::Segment
                    && entries[e].1.row == kept[i];
            assert(placeable(entries[e].1.row));
        } else {
            assert(new_rows[i - kept.len()] == rows[k]);
        }
    }
}

/// The identifiers of the entries laid out for the first `n` rows: those of the rows, and those
/// of the chunks that announce their entities.
pub proof fn placed_identifiers(rows: Seq<CorpusChunkRow>, n: nat)
    requires
        n <= rows.len(),
    ensures
        unique_keys(placed_entries(rows, n)),
        forall|k: u128| #[trigger]
            has_key(placed_entries(rows, n), k) <==> exists|j: int|
                0 <= j < n && ((#[trigger] rows[j]).id() == k || static_id(rows[j].entity()) == k),
    decreases n,
{
    if n > 0 {
        let m = (n - 1) as nat;
        placed_identifiers(rows, m);
        let row = rows[n - 1];
        let before = placed_entries(rows, m);
        let seen = entity_seen(rows, m, row.entity());
        lemma_upsert(before, static_id(row.entity()), static_entry(row));
        let announced = if seen {
            before
        } else {
            upsert(before, static_id(row.entity()), static_entry(row))
        };
        lemma_upsert(announced, row.id(), segment_entry(row));
        assert forall|k: u128| #[trigger]
            has_key(placed_entries(rows, n), k) <==> exists|j: int|
                0 <= j < n && ((#[trigger] rows[j]).id() == k || static_id(rows[j].entity())
                    == k) by {
            if seen {
                let s = choose|s: int| 0 <= s < m && (#[trigger] rows[s]).entity()
                    == row.entity();
                assert(static_id(rows[s].entity()) == static_id(row.entity()));
                assert(has_key(before, static_id(row.entity())));
            }
            if has_key(placed_entries(rows, n), k) {
                if k == row.id() || k == static_id(row.entity()) {
                    assert(rows[m as int].id() == k || static_id(rows[m as int].entity()) == k);
                } else {
                    assert(has_key(before, k));
                    let j = choose|j: int|
                        0 <= j < m && ((#[trigger] rows[j]).id() == k || static_id(
                            rows[j].entity(),
                        ) == k);
                    assert(rows[j].id() == k || static_id(rows[j].entity()) == k);
                }
            }
            if exists|j: int|
                0 <= j < n && ((#[trigger] rows[j]).id() == k || static_id(rows[j].entity()) == k) {
                let j = choose|j: int|
                    0 <= j < n && ((#[trigger] rows[j]).id() == k || static_id(rows[j].entity())
                        == k);
                if j < m {
                    assert(has_key(before, k));
                }
            }
        }
    }
}

proof fn lemma_push_ids(rows: Seq<ManifestRowView>, row: ManifestRowView)
    ensures
        row_ids(rows.push(row)) == row_ids(rows).push(row.chunk_id),
        listed_ids(rows.push(row)) == listed_ids(rows).insert(row.chunk_id),
{
    assert(row_ids(rows.push(row)) =~= row_ids(rows).push(row.chunk_id));
    let before = row_ids(rows);
    let after = before.push(row.chunk_id);
    assert forall|id: u128| #[trigger]
        listed_ids(rows.push(row)).contains(id) <==> listed_ids(rows).insert(
            row.chunk_id,
        ).contains(id) by {
        if before.contains(id) {
            let i = choose|i: int| 0 <= i < before.len() && before[i] == id;
            assert(after[i] == id);
        }
        if id == row.chunk_id {
            assert(after[before.len() as int] == id);
        }
        if after.contains(id) && id != row.chunk_id {
            let i = choose|i: int| 0 <= i < after.len() && after[i] == id;
            assert(before[i] == id);
        }
    }
    assert(listed_ids(rows.push(row)) =~= listed_ids(rows).insert(row.chunk_id));
}

/// The manifest laid out for rows lists exactly the chunks that entries are laid out for.
pub proof fn manifest_lists_entries(rows: Seq<CorpusChunkRow>, n: nat)
    requires
        n <= rows.len(),
    ensures
        listed_ids(placed_rows(rows, n)) == key_set(placed_entries(rows, n)),
    decreases n,
{
    if n == 0 {
        assert(listed_ids(placed_rows(rows, n)) =~= key_set(placed_entries(rows, n)));
    } else {
        let m = (n - 1) as nat;
        manifest_lists_entries(rows, m);
        placed_identifiers(rows, m);
        let row = rows[n - 1];
        let before = placed_entries(rows, m);
        let listed = placed_rows(rows, m);
        let seen = entity_seen(rows, m, row.entity());
        lemma_upsert(before, static_id(row.entity()), static_entry(row));
        let announced = if seen {
            before
        } else {
            upsert(before, static_id(row.entity()), static_entry(row))
        };
        lemma_upsert(announced, row.id(), segment_entry(row));
        let all = placed_rows(rows, n);
        let listed_announced = all.drop_last();
        lemma_push_ids(listed_announced, all.last());
        assert(all =~= listed_announced.push(all.last()));
        if seen {
            assert(listed_announced =~= listed);
        } else {
            lemma_push_ids(listed, listed_announced.last());
            assert(listed_announced =~= listed.push(listed_announced.last()));
        }
    }
}

/// Where the identifiers of all chunks are distinct, the manifest laid out for rows lists no chunk
/// twice.
pub proof fn chunks_are_listed_once(rows: Seq<CorpusChunkRow>, n: nat)
    requires
        n <= rows.len(),
        identifiers_apart(rows),
    ensures
        row_ids(placed_rows(rows, n)).no_duplicates(),
    decreases n,
{
    if n > 0 {
        let m = (n - 1) as nat;
        chunks_are_listed_once(rows, m);
        manifest_lists_entries(rows, m);
        placed_identifiers(rows, m);
        let row = rows[n - 1];
        let listed = placed_rows(rows, m);
        let before = placed_entries(rows, m);
        let seen = entity_seen(rows, m, row.entity());
        let id = static_id(row.entity());
        let all = placed_rows(rows, n);
        let announced = all.drop_last();
        assert(all =~= announced.push(all.last()));
        lemma_push_ids(announced, all.last());
        assert(!has_key(before, row.id())) by {
            if has_key(before, row.id()) {
                let j = choose|j: int|
                    0 <= j < m && ((#[trigger] rows[j]).id() == row.id() || static_id(
                        rows[j].entity(),
                    ) == row.id());
                assert(rows[j].id() != rows[n - 1].id());
                assert(rows[n - 1].id() != static_id(rows[j].entity()));
            }
        }
        assert(!listed_ids(listed).contains(row.id()));
        if seen {
            assert(announced =~= listed);
        } else {
            assert(announced =~= listed.push(announced.last()));
            lemma_push_ids(listed, announced.last());
            assert(!has_key(before, id)) by {
                if has_key(before, id) {
                    let j = choose|j: int|
                        0 <= j < m && ((#[trigger] rows[j]).id() == id || static_id(
                            rows[j].entity(),
                        ) == id);
                    assert(rows[j].id() != static_id(rows[n - 1].entity()));
                    assert(rows[j].entity() == rows[n - 1].entity());
                }
            }
            assert(!listed_ids(listed).contains(id));
            assert(announced.last().chunk_id == id);
            assert(!row_ids(listed).contains(id));
            assert(rows[n - 1].id() != static_id(rows[n - 1].entity()));
        }
        assert(!listed_ids(announced).contains(row.id()));
        assert(!row_ids(announced).contains(row.id()));
    }
}

/// Absorbing rows keeps the state consistent: the manifest lists exactly the chunks that there are
/// entries for, and both are laid out from rows of which each is there once.
pub proof fn absorbed_is_consistent(
    state: ProviderView,
    store_id: StoreId,
    new_rows: Seq<CorpusChunkRow>,
)
    requires
        state.wf(),
        forall|i: int| 0 <= i < new_rows.len() ==> placeable(#[trigger] new_rows[i]),
    ensures
        absorbed(state, store_id, new_rows).wf(),
{
    let rows = replayed(state.entries, new_rows);
    lemma_replayed_placeable(state.entries, new_rows);
    each_row_is_replayed_once(state.entries, new_rows);
    lemma_placed_entries(rows, rows.len());
    manifest_lists_entries(rows, rows.len());
    if identifiers_apart(rows) {
        chunks_are_listed_once(rows, rows.len());
    }
    assert(laid_out(absorbed(state, store_id, new_rows), rows));
}

/// Raises the watermark by the rows that are not among `entries` yet, and tells whether there
/// was one.
fn raise_watermark(
    entries: &IdMap<ManifestEntry>,
    watermark: Option<i64>,
    rows: &Vec<CorpusChunkRow>,
) -> (r: (Option<i64>, bool))
    requires
        entries.wf(),
    ensures
        r.0 == raised_by(entries@, watermark, rows@, rows@.len()),
        r.1 == any_new(entries@, rows@, rows@.len()),
{
    let mut new_watermark: Option<i64> = watermark;
    let mut absorbed_any: bool = false;
    let mut i: usize = 0;
    while i < rows.len()
        invariant
            i <= rows@.len(),
            entries.wf(),
            new_watermark == raised_by(entries@, watermark, rows@, i as nat),
            absorbed_any == any_new(entries@, rows@, i as nat),
        decreases rows@.len() - i,
    {
        let row = &rows[i];
        if !entries.contains_key(row.chunk_id()) {
            assert(is_new(entries@, rows@[i as int]));
            absorbed_any = true;
            let start: i64 = row.chunk_start_ns;
            new_watermark =
            match new_watermark {
                Some(w) => if w >= start {
                    Some(w)
                } else {
                    Some(start)
                },
                None => Some(start),
            };
        }
        i = i + 1;
    }
    (new_watermark, absorbed_any)
}

/// Takes `new_rows` into `state`: lays all rows out again, those that were there and those that
/// came.
pub fn absorb_rows(
    config: &CorpusConfig,
    state: &mut ProviderState,
    new_rows: Vec<CorpusChunkRow>,
)
    requires
        old(state).entries.wf(),
        old(state)@.wf(),
        forall|i: int| 0 <= i < new_rows@.len() ==> placeable(#[trigger] new_rows@[i]),
        2 * (old(state)@.entries.len() + new_rows@.len()) <= u64::MAX,
    ensures
        final(state).entries.wf(),
        final(state)@.wf(),
        final(state)@ == absorbed(old(state)@, store_of(*config), new_rows@),
{
    let ghost before = state@;
    let rows = replay_rows(&state.entries, new_rows);
    proof {
        lemma_replayed_placeable(before.entries, new_rows@);
        lemma_segment_rows_from(before.entries);
        each_row_is_replayed_once(before.entries, new_rows@);
        absorbed_is_consistent(before, store_of(*config), new_rows@);
    }
    let (watermark_ns, absorbed_any) = raise_watermark(&state.entries, state.watermark_ns, &rows);
    let (entries, listed) = place_rows(&rows);
    let store_id = StoreId {
        kind: StoreKind::Recording,
        application_id: config.application_id.clone(),
        recording_id: config.recording_id.clone(),
    };
    let raw_manifest = RawRrdManifest { store_id, rows: listed };
    let manifest = RrdManifest::from_raw(&raw_manifest);
    state.raw_manifest = Arc::new(raw_manifest);
    state.manifest = Arc::new(manifest);
    state.entries = entries;
    state.watermark_ns = watermark_ns;
    if absorbed_any {
        state.revision = state.revision.wrapping_add(1);
    }
}

/// The state that the rows of a first scan lead to.
pub fn build_initial_state(config: &CorpusConfig, rows: Vec<CorpusChunkRow>) -> (r: ProviderState)
    requires
        forall|i: int| 0 <= i < rows@.len() ==> placeable(#[trigger] rows@[i]),
        2 * rows@.len() <= u64::MAX,
    ensures
        r.entries.wf(),
        r@.wf(),
        r@ == (if rows@.len() == 0 {
            no_rows_yet(store_of(*config))
        } else {
            absorbed(no_rows_yet(store_of(*config)), store_of(*config), rows@)
        }),
{
    let listed: Vec<ManifestRow> = Vec::new();
    let store_id = StoreId {
        kind: StoreKind::Recording,
        application_id: config.application_id.clone(),
        recording_id: config.recording_id.clone(),
    };
    let raw_manifest = RawRrdManifest { store_id, rows: listed };
    let manifest = RrdManifest::from_raw(&raw_manifest);
    let mut state = ProviderState {
        raw_manifest: Arc::new(raw_manifest),
        manifest: Arc::new(manifest),
        entries: IdMap::new(),
        watermark_ns: None,
        revision: 0,
    };
    assert(state@ =~= no_rows_yet(store_of(*config))) by {
        assert(state@.raw_manifest.rows =~= Seq::<ManifestRowView>::empty());
    }
    assert(listed_ids(state@.raw_manifest.rows) =~= key_set(state@.entries));
    assert(laid_out(state@, Seq::empty()));
    if !rows.is_empty() {
        absorb_rows(config, &mut state, rows);
    }
    state
}

} // verus!
