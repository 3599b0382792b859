//! Loading chunks on demand and dropping them again.

use nereid::chunk::{AudioFields, Chunk, TimeColumn};
use nereid::manifest::{ManifestRow, RawRrdManifest, RrdManifest, StoreId, StoreKind};
use nereid::server::{evict_cycle, keep_window};
use nereid::store::chunk_provider::ChunkProvider;
use nereid::store::error::{ChunkStoreError, CodecError};
use nereid::store::lazy::{EvictionStats, ExtractPropertiesError, LazyChunkStore};
use nereid::store::lazy_store::LazyStore;
use nereid::time::AbsoluteTimeRange;
use std::collections::HashMap;
use std::sync::{Arc, Mutex};

/// Keeps every chunk in memory and serves chunks directly.
struct InMemoryProvider {
    raw: Arc<RawRrdManifest>,
    manifest: Arc<RrdManifest>,
    chunks: HashMap<u128, Arc<Chunk>>,
    load_count: Mutex<usize>,
    fail: Mutex<bool>,
}

impl InMemoryProvider {
    fn new(store_id: StoreId, chunks: Vec<Arc<Chunk>>) -> Self {
        let mut rows = Vec::new();
        let mut offset = 0u64;
        for chunk in &chunks {
            let size = 100;
            rows.push(ManifestRow::of(chunk, offset, size));
            offset += size;
        }
        let raw = Arc::new(RawRrdManifest { store_id, rows });
        let manifest = Arc::new(RrdManifest::from_raw(&raw));
        let chunks = chunks.into_iter().map(|c| (c.id, c)).collect();
        Self {
            raw,
            manifest,
            chunks,
            load_count: Mutex::new(0),
            fail: Mutex::new(false),
        }
    }

    fn load_count(&self) -> usize {
        *self.load_count.lock().unwrap()
    }
}

impl ChunkProvider for InMemoryProvider {
    fn manifest(&self) -> Arc<RrdManifest> {
        Arc::clone(&self.manifest)
    }

    fn raw_manifest(&self) -> Arc<RawRrdManifest> {
        Arc::clone(&self.raw)
    }

    fn load_chunks(&self, chunk_ids: &[u128]) -> Result<Vec<Arc<Chunk>>, ChunkStoreError> {
        if *self.fail.lock().unwrap() {
            return Err(ChunkStoreError::Codec(CodecError::Io("offline".into())));
        }
        *self.load_count.lock().unwrap() += chunk_ids.len();
        Ok(chunk_ids
            .iter()
            .filter_map(|id| self.chunks.get(id).cloned())
            .collect())
    }
}

fn store_id() -> StoreId {
    StoreId {
        kind: StoreKind::Recording,
        application_id: "test".into(),
        recording_id: "rec".into(),
    }
}

fn chunk_at(id: u128, entity: &str, times: &[i64]) -> Arc<Chunk> {
    Arc::new(Chunk {
        id,
        entity_path: entity.into(),
        timelines: vec![TimeColumn {
            timeline: "frame".into(),
            times: times.to_vec(),
        }],
        rows: times
            .iter()
            .map(|t| AudioFields::packet(vec![*t as u8], 1, *t as u64))
            .collect(),
    })
}

fn make_chunks(num_entities: usize, num_frames: usize) -> (StoreId, Vec<Arc<Chunk>>) {
    let mut chunks = Vec::new();
    for entity_idx in 0..num_entities {
        for frame_idx in 0..num_frames {
            let id = (entity_idx * 100 + frame_idx + 1) as u128;
            chunks.push(chunk_at(
                id,
                &format!("/entity_{entity_idx}"),
                &[frame_idx as i64],
            ));
        }
    }
    (store_id(), chunks)
}

#[test]
fn virtual_index_populated_without_loading() {
    let (store_id, chunks) = make_chunks(2, 3);
    let total = chunks.len();
    let provider = InMemoryProvider::new(store_id, chunks);
    let lazy = LazyChunkStore::new(provider);

    assert_eq!(lazy.num_chunks(), total);
    assert_eq!(lazy.num_physical_chunks(), 0);
    assert_eq!(lazy.provider().load_count(), 0);
}

#[test]
fn load_chunks_filters_already_loaded() {
    let (store_id, chunks) = make_chunks(1, 3);
    let provider = InMemoryProvider::new(store_id, chunks);
    let mut lazy = LazyChunkStore::new(provider);

    let ids: Vec<u128> = lazy.manifest().chunk_ids.to_vec();
    let first_round = lazy.load_chunks(&ids).unwrap();
    assert_eq!(first_round.len(), ids.len());
    assert_eq!(lazy.provider().load_count(), ids.len());

    // Second call: already physical, so the provider must not be hit.
    let second_round = lazy.load_chunks(&ids).unwrap();
    assert!(second_round.is_empty());
    assert_eq!(
        lazy.provider().load_count(),
        ids.len(),
        "second round should not re-hit the provider"
    );
}

#[test]
fn load_all_then_iterate_physical_chunks() {
    let (store_id, chunks) = make_chunks(2, 4);
    let total = chunks.len();
    let provider = InMemoryProvider::new(store_id, chunks);
    let mut lazy = LazyChunkStore::new(provider);

    let collected = lazy.collect_physical_chunks().unwrap();
    assert_eq!(collected.len(), total);
    assert_eq!(lazy.num_physical_chunks(), total);
}

#[test]
fn extend_with_manifest_grows_virtual_index() {
    // Two non-overlapping batches of chunks for the same store_id; the
    // second batch represents what a live-edge poll would surface.
    let (store_id, mut chunks) = make_chunks(1, 3);
    let initial_total = chunks.len();
    let extra = chunks.split_off(2);
    let initial_chunks = chunks;
    let extra_total = extra.len();

    let initial_provider = InMemoryProvider::new(store_id.clone(), initial_chunks.clone());
    let initial_chunk_ids: Vec<u128> = initial_provider.manifest.chunk_ids.to_vec();

    let mut full_chunks = initial_chunks;
    full_chunks.extend(extra);
    let full_provider = InMemoryProvider::new(store_id, full_chunks);
    let extended_manifest = Arc::clone(&full_provider.manifest);
    let extended_raw = Arc::clone(&full_provider.raw);

    let mut lazy = LazyChunkStore::new(initial_provider);
    assert_eq!(lazy.num_chunks(), initial_total - extra_total);
    for &id in &initial_chunk_ids {
        assert!(lazy.chunk_row_index(id).is_some());
    }

    lazy.extend_with_manifest(extended_manifest, extended_raw);
    assert_eq!(lazy.num_chunks(), initial_total);
    // Every chunk now has a row index, including the freshly absorbed ones.
    for chunk_id in &lazy.manifest().chunk_ids {
        assert!(
            lazy.chunk_row_index(*chunk_id).is_some(),
            "chunk {chunk_id} missing from extended index"
        );
    }
}

#[test]
fn drop_time_range_shallow_evicts_physical_chunks() {
    let (store_id, chunks) = make_chunks(1, 5);
    let provider = InMemoryProvider::new(store_id, chunks);
    let mut lazy = LazyChunkStore::new(provider);

    lazy.load_all_chunks().unwrap();
    let loaded_before = lazy.num_physical_chunks();
    assert!(loaded_before > 0);

    // Drop everything by passing a range that spans all valid time
    // values. After eviction, physical count drops back to zero but the
    // virtual count stays the same: chunks remain reloadable.
    let drop_range = AbsoluteTimeRange::everything();
    let virtual_before = lazy.num_chunks();
    let _events = lazy.drop_time_range_shallow("frame", drop_range, 1_000_000);
    assert_eq!(lazy.num_physical_chunks(), 0, "evicted physical chunks");
    assert_eq!(lazy.num_chunks(), virtual_before, "virtual count unchanged");

    // Reload to demonstrate the round-trip.
    lazy.load_all_chunks().unwrap();
    assert_eq!(lazy.num_physical_chunks(), loaded_before);
}

#[test]
fn evict_outside_window_drops_only_fully_out_of_window_chunks() {
    // 1 entity x 5 frames: chunks at sequence times 0..=4.
    let (store_id, chunks) = make_chunks(1, 5);
    let provider = InMemoryProvider::new(store_id, chunks);
    let mut lazy = LazyChunkStore::new(provider);
    lazy.load_all_chunks().unwrap();

    let initial_physical = lazy.num_physical_chunks();
    assert!(initial_physical >= 5);

    // Keep window = [2, 3]. Chunks at 0, 1 (max < 2) and 4 (min > 3) are
    // fully outside and should be evicted; chunks at 2 and 3 are kept.
    let keep = AbsoluteTimeRange::new(2_i64, 3_i64);
    let stats = lazy.evict_outside_window("frame", keep);
    assert!(stats.evicted >= 3, "expected at least 3 evictions, got {stats:?}");
    assert_eq!(stats.retained, lazy.num_physical_chunks());
    // Virtual count stays the same: eviction is shallow.
    let virtual_count = lazy.num_chunks();
    assert!(virtual_count >= 5);

    // Re-evicting with the same window is a no-op (already at steady state).
    let stats = lazy.evict_outside_window("frame", keep);
    assert_eq!(stats.evicted, 0);
}

#[test]
fn evict_outside_window_no_op_without_loaded_chunks() {
    let (store_id, chunks) = make_chunks(1, 3);
    let provider = InMemoryProvider::new(store_id, chunks);
    let mut lazy = LazyChunkStore::new(provider);

    // Nothing is physical yet: eviction should report (0, 0).
    let stats = lazy.evict_outside_window("frame", AbsoluteTimeRange::empty());
    assert_eq!(stats.evicted, 0);
    assert_eq!(stats.retained, 0);
}

#[test]
fn observe_query_cursor_records_latest() {
    let (store_id, chunks) = make_chunks(1, 1);
    let provider = InMemoryProvider::new(store_id, chunks);
    let mut lazy = LazyChunkStore::new(provider);

    assert_eq!(lazy.cursor("frame"), None);
    assert_eq!(lazy.num_cursor_observations(), 0);

    lazy.observe_query_cursor("frame", AbsoluteTimeRange::new(10_i64, 20_i64));
    assert_eq!(
        lazy.cursor("frame"),
        Some(AbsoluteTimeRange::new(10_i64, 20_i64))
    );

    // Newer observation overwrites the old one: eviction always tracks
    // the *current* viewport, not the union of all viewports ever shown.
    lazy.observe_query_cursor("frame", AbsoluteTimeRange::new(50_i64, 60_i64));
    assert_eq!(
        lazy.cursor("frame"),
        Some(AbsoluteTimeRange::new(50_i64, 60_i64))
    );
    assert_eq!(lazy.num_cursor_observations(), 1);
}

#[test]
fn loaded_chunks_are_found_and_kept() {
    let (id, chunks) = make_chunks(1, 3);
    let mut lazy = LazyChunkStore::new(InMemoryProvider::new(id, chunks));
    let loaded = lazy.load_chunks(&[2, 2]).unwrap();
    // A repeated identifier is asked for twice and stored once.
    assert_eq!(loaded.len(), 2);
    assert_eq!(lazy.num_physical_chunks(), 1);
    assert!(lazy.has_physical_chunk(2));
    assert!(!lazy.has_physical_chunk(1));
    assert_eq!(lazy.physical_chunk(2).unwrap().rows[0].sequence_number, Some(1));
    assert!(lazy.physical_chunk(9).is_none());
    assert_eq!(lazy.missing_chunks(&[1, 2, 3, 1]), vec![1, 3, 1]);
    assert_eq!(lazy.store_id().recording_id, "rec");
    assert_eq!(lazy.raw_manifest().rows.len(), 3);
    assert_eq!(lazy.chunk_row_index(3), Some(2));
    assert_eq!(lazy.chunk_row_index(4), None);
}

#[test]
fn a_failing_provider_changes_nothing() {
    let (id, chunks) = make_chunks(1, 3);
    let mut lazy = LazyChunkStore::new(InMemoryProvider::new(id, chunks));
    lazy.load_chunks(&[1]).unwrap();
    *lazy.provider().fail.lock().unwrap() = true;
    assert!(lazy.load_all_chunks().is_err());
    assert!(lazy.collect_physical_chunks().is_err());
    assert_eq!(lazy.num_physical_chunks(), 1);
    // What is loaded does not need the provider.
    assert!(lazy.load_chunks(&[1]).unwrap().is_empty());
}

#[test]
fn static_chunks_and_other_timelines_are_retained() {
    let fixed = Arc::new(Chunk {
        id: 50,
        entity_path: "/static".into(),
        timelines: vec![],
        rows: vec![AudioFields::packet(vec![1], 1, 1)],
    });
    let (id, mut chunks) = make_chunks(1, 2);
    chunks.push(fixed);
    let mut lazy = LazyChunkStore::new(InMemoryProvider::new(id, chunks));
    lazy.load_all_chunks().unwrap();
    let stats = lazy.evict_outside_window("other", AbsoluteTimeRange::empty());
    assert_eq!(stats, EvictionStats { evicted: 0, retained: 3 });
    let stats = lazy.evict_outside_window("frame", AbsoluteTimeRange::new(100, 200));
    assert_eq!(stats, EvictionStats { evicted: 2, retained: 1 });
    assert!(lazy.has_physical_chunk(50));
    assert!(lazy.timeline_range(50).is_none());
    assert_eq!(EvictionStats::default(), EvictionStats { evicted: 0, retained: 0 });
}

#[test]
fn timeline_ranges_cover_all_components_and_repeats() {
    let a = chunk_at(1, "/a", &[5, 9]);
    let again = chunk_at(1, "/a", &[2]);
    let b = chunk_at(2, "/b", &[100]);
    let lazy = LazyChunkStore::new(InMemoryProvider::new(store_id(), vec![a, b, again]));
    let list = lazy.timeline_range(1).unwrap();
    assert_eq!(list.len(), 1);
    assert_eq!(list[0].timeline, "frame");
    assert_eq!(list[0].range, AbsoluteTimeRange::new(2, 9));
    // The last of two rows for one chunk counts.
    assert_eq!(lazy.chunk_row_index(1), Some(2));
}

#[test]
fn dropping_a_time_range_splits_chunks() {
    let long = chunk_at(1, "/a", &[1, 2, 3, 4, 5]);
    let outside = chunk_at(2, "/a", &[9]);
    let mut lazy = LazyChunkStore::new(InMemoryProvider::new(store_id(), vec![long, outside]));
    lazy.load_all_chunks().unwrap();
    let dropped = lazy.drop_time_range_shallow("frame", AbsoluteTimeRange::new(2, 3), 1_000);
    assert_eq!(dropped, vec![1]);
    assert_eq!(lazy.num_physical_chunks(), 3);
    assert!(!lazy.has_physical_chunk(1));
    assert!(lazy.has_physical_chunk(2));
    let head = lazy.physical_chunk(1_000).unwrap();
    assert_eq!(head.timelines[0].times, vec![1]);
    assert_eq!(head.rows.len(), 1);
    let tail = lazy.physical_chunk(1_001).unwrap();
    assert_eq!(tail.timelines[0].times, vec![4, 5]);
    assert_eq!(tail.rows[1].sequence_number, Some(5));
    assert_eq!(lazy.num_chunks(), 2);
    // Identifiers may be larger than those that are given out.
    let cut = lazy.drop_time_range_shallow("frame", AbsoluteTimeRange::new(4, 4), 100);
    assert_eq!(cut, vec![1_001]);
    assert_eq!(lazy.physical_chunk(100).unwrap().timelines[0].times, vec![5]);
    assert!(lazy.has_physical_chunk(1_000));
    // A range without rows drops nothing.
    let none = lazy.drop_time_range_shallow("frame", AbsoluteTimeRange::new(6, 8), 5_000);
    assert!(none.is_empty());
}

#[test]
fn evicted_chunks_are_asked_for_again() {
    let (id, chunks) = make_chunks(1, 3);
    let mut lazy = LazyChunkStore::new(InMemoryProvider::new(id, chunks));
    lazy.load_all_chunks().unwrap();
    lazy.evict_outside_window("frame", AbsoluteTimeRange::new(1, 1));
    assert_eq!(lazy.missing_chunks(&[1, 2, 3]), vec![1, 3]);
    lazy.load_all_chunks().unwrap();
    assert_eq!(lazy.num_physical_chunks(), 3);
    assert_eq!(lazy.provider().load_count(), 5);
}

#[test]
fn operations_load_what_they_miss() {
    let (id, chunks) = make_chunks(1, 3);
    let mut lazy = LazyChunkStore::new(InMemoryProvider::new(id, chunks));
    let result = lazy.with_autoload(|chunks| {
        if chunks.len() < 3 {
            Err(ExtractPropertiesError::MissingData(vec![chunks.len() as u128 + 1]))
        } else {
            Ok(chunks.len())
        }
    });
    assert_eq!(result.unwrap(), 3);
    for id in 1..=3 {
        assert!(lazy.has_physical_chunk(id));
    }

    let failed: Result<u8, ExtractPropertiesError> =
        lazy.with_autoload(|_| Err(ExtractPropertiesError::Internal("broken".into())));
    assert!(matches!(failed, Err(ExtractPropertiesError::Internal(m)) if m == "broken"));

    // A chunk that never comes is asked for again and again, and then given up.
    let stuck: Result<u8, ExtractPropertiesError> =
        lazy.with_autoload(|_| Err(ExtractPropertiesError::MissingData(vec![77])));
    assert!(matches!(
        stuck,
        Err(ExtractPropertiesError::Internal(m))
            if m == "autoload did not converge after 1024 attempts"
    ));

    *lazy.provider().fail.lock().unwrap() = true;
    let offline: Result<u8, ExtractPropertiesError> =
        lazy.with_autoload(|_| Err(ExtractPropertiesError::MissingData(vec![77])));
    assert!(matches!(offline, Err(ExtractPropertiesError::Internal(m)) if m == "offline"));
}

#[test]
fn a_round_of_eviction_follows_the_cursor() {
    let (id, chunks) = make_chunks(1, 5);
    let mut lazy = LazyChunkStore::new(InMemoryProvider::new(id, chunks));
    lazy.load_all_chunks().unwrap();
    assert!(evict_cycle(&mut lazy, "frame", 1, 0).is_none());
    lazy.observe_query_cursor("frame", AbsoluteTimeRange::new(2, 3));
    let (cursor, stats) = evict_cycle(&mut lazy, "frame", 1, 0).unwrap();
    assert_eq!(cursor, AbsoluteTimeRange::new(2, 3));
    assert_eq!(stats, EvictionStats { evicted: 2, retained: 3 });
    assert!(lazy.has_physical_chunk(2));
    assert!(!lazy.has_physical_chunk(1));
    assert_eq!(
        keep_window(AbsoluteTimeRange::new(i64::MIN + 1, i64::MAX - 1), 5, 5),
        AbsoluteTimeRange::everything()
    );
}

#[test]
fn a_lazy_store_behind_its_trait() {
    let (id, chunks) = make_chunks(1, 2);
    let mut lazy = LazyChunkStore::new(InMemoryProvider::new(id, chunks));
    let store: &mut dyn LazyStore = &mut lazy;
    assert_eq!(store.num_chunks(), 2);
    assert_eq!(store.store_id().application_id, "test");
    assert_eq!(store.load_chunks(&[1]).unwrap().len(), 1);
    assert!(store.physical_chunk(1).is_some());
    assert_eq!(store.chunk_row_index(2), Some(1));
    assert!(store.timeline_range(2).is_some());
    assert_eq!(store.collect_physical_chunks().unwrap().len(), 2);
    store.observe_query_cursor("frame", AbsoluteTimeRange::new(1, 2));
    assert_eq!(store.manifest().num_chunks(), store.raw_manifest().rows.len());
    assert_eq!(lazy.num_cursor_observations(), 1);
}

#[test]
fn ranges_of_time() {
    let a = AbsoluteTimeRange::new(1, 5);
    let b = AbsoluteTimeRange::new(-3, 2);
    assert_eq!(a.union(b), AbsoluteTimeRange::new(-3, 5));
    assert_eq!(AbsoluteTimeRange::everything().union(a), AbsoluteTimeRange::everything());
    assert_eq!(AbsoluteTimeRange::empty().union(a), a);
}
