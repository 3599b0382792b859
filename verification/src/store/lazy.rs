//! A store whose chunks are known up front and loaded on demand.

use crate::chunk::{Chunk, ChunkView};
use crate::id_map::{has_key, lookup, IdMap};
use crate::manifest::{ManifestView, RawManifestView, RawRrdManifest, RrdManifest, StoreId};
use crate::select::{flags_by, is_flagged, lemma_select, lemma_select_flags, select};
use crate::shared::share;
use crate::store::chunk_provider::ChunkProvider;
use crate::store::error::ChunkStoreError;
use crate::store::slice::{find_times, leftovers, range_flags, slice_chunk, touched};
use crate::store::timeline_index::{
    build_timeline_ranges, chunk_span, distinct_timelines, find_range, has_range, indexed_range,
    indexes,
    listed_range, TimelineRange,
};
use crate::time::AbsoluteTimeRange;
use std::collections::HashMap;
use std::sync::Arc;
use vstd::hash_map::StringHashMap;
use vstd::prelude::*;

verus! {

broadcast use vstd::std_specs::hash::group_hash_axioms;

/// What one round of eviction did.
#[derive(Debug, Clone, Copy, PartialEq, Eq, Structural)]
pub struct EvictionStats {
    /// How many loaded chunks were dropped.
    pub evicted: usize,
    /// How many chunks are still loaded.
    pub retained: usize,
}

impl Default for EvictionStats {
    fn default() -> (r: Self)
        ensures
            r == (EvictionStats { evicted: 0, retained: 0 }),
    {
        EvictionStats { evicted: 0, retained: 0 }
    }
}

/// The last position of `id` among the first `n` of `ids`.
pub open spec fn last_index(ids: Seq<u128>, id: u128, n: nat) -> Option<usize>
    decreases n,
{
    if n == 0 {
        None
    } else if ids[n - 1] == id {
        Some((n - 1) as usize)
    } else {
        last_index(ids, id, (n - 1) as nat)
    }
}

/// Every listed identifier has a position, and it stands there.
pub proof fn listed_ids_have_a_row(ids: Seq<u128>, id: u128, n: nat)
    requires
        n <= ids.len(),
        n <= usize::MAX,
    ensures
        last_index(ids, id, n) is Some <==> exists|i: int| 0 <= i < n && ids[i] == id,
        last_index(ids, id, n) matches Some(i) ==> i < n && ids[i as int] == id,
    decreases n,
{
    if n > 0 {
        listed_ids_have_a_row(ids, id, (n - 1) as nat);
        if ids[n - 1] == id {
            assert(ids[n - 1] == id);
        } else if last_index(ids, id, n) is Some {
            let i = last_index(ids, id, n)->0;
            assert(ids[i as int] == id);
        }
    }
}

/// Those of `ids` that are not loaded, in order.
pub open spec fn missing(loaded: Seq<(u128, Arc<Chunk>)>, ids: Seq<u128>) -> Seq<u128> {
    select(ids, flags_by(ids, |id: u128| !has_key(loaded, id)))
}

/// `loaded` after `chunks` came, of which those that were there already have no effect.
pub open spec fn with_chunks(
    loaded: Seq<(u128, Arc<Chunk>)>,
    chunks: Seq<Arc<Chunk>>,
    n: nat,
) -> Seq<(u128, Arc<Chunk>)>
    decreases n,
{
    if n == 0 {
        loaded
    } else {
        let before = with_chunks(loaded, chunks, (n - 1) as nat);
        let chunk = chunks[n - 1];
        if has_key(before, chunk.id) {
            before
        } else {
            before.push((chunk.id, chunk))
        }
    }
}

/// Whether `reply` can come of asking for `ids` while `loaded` is loaded. Where nothing is missing
/// nothing comes; otherwise it is what the provider replies when it is asked for what is missing.
pub open spec fn can_reply<P: ChunkProvider>(
    source: P,
    loaded: Seq<(u128, Arc<Chunk>)>,
    ids: Seq<u128>,
    reply: Result<Vec<Arc<Chunk>>, ChunkStoreError>,
) -> bool {
    if missing(loaded, ids).len() == 0 {
        reply matches Ok(chunks) && chunks@.len() == 0
    } else {
        exists|asked: &[u128]|
            asked@ == missing(loaded, ids) && #[trigger] call_ensures(
                P::load_chunks,
                (&source, asked),
                reply,
            )
    }
}

/// What is loaded after a reply: the chunks that came are added, and a failure changes nothing.
pub open spec fn after_reply(
    loaded: Seq<(u128, Arc<Chunk>)>,
    reply: Result<Vec<Arc<Chunk>>, ChunkStoreError>,
) -> Seq<(u128, Arc<Chunk>)> {
    match reply {
        Ok(chunks) => with_chunks(loaded, chunks@, chunks@.len()),
        Err(_) => loaded,
    }
}

/// Whether a load ended as the reply did: well, or with the same error.
pub open spec fn ended_as<T>(
    r: Result<T, ChunkStoreError>,
    reply: Result<Vec<Arc<Chunk>>, ChunkStoreError>,
) -> bool {
    match (r, reply) {
        (Ok(_), Ok(_)) => true,
        (Err(e), Err(f)) => e == f,
        _ => false,
    }
}

/// Whether an operation, run on the chunks in `loaded`, can report that it misses `ids`.
pub open spec fn can_miss<T, F: Fn(&IdMap<Arc<Chunk>>) -> Result<T, ExtractPropertiesError>>(
    op: F,
    loaded: Seq<(u128, Arc<Chunk>)>,
    ids: Vec<u128>,
) -> bool {
    exists|chunks: &IdMap<Arc<Chunk>>|
        chunks@ == loaded && #[trigger] call_ensures(
            op,
            (chunks,),
            Err::<T, ExtractPropertiesError>(ExtractPropertiesError::MissingData(ids)),
        )
}

/// Whether one round of automatic loading can lead from `before` to `after`: the operation
/// reports what it misses, and the provider hands it out.
pub open spec fn autoload_round<
    P: ChunkProvider,
    T,
    F: Fn(&IdMap<Arc<Chunk>>) -> Result<T, ExtractPropertiesError>,
>(op: F, source: P, before: Seq<(u128, Arc<Chunk>)>, after: Seq<(u128, Arc<Chunk>)>) -> bool {
    exists|ids: Vec<u128>, reply: Result<Vec<Arc<Chunk>>, ChunkStoreError>|
        {
            &&& #[trigger] can_miss::<T, F>(op, before, ids)
            &&& #[trigger] can_reply(source, before, ids@, reply)
            &&& reply is Ok
            &&& after == after_reply(before, reply)
        }
}

/// Whether `n` rounds of automatic loading can lead from `first` to `last`.
pub open spec fn autoloaded<
    P: ChunkProvider,
    T,
    F: Fn(&IdMap<Arc<Chunk>>) -> Result<T, ExtractPropertiesError>,
>(op: F, source: P, first: Seq<(u128, Arc<Chunk>)>, last: Seq<(u128, Arc<Chunk>)>, n: nat) -> bool
    decreases n,
{
    if n == 0 {
        first == last
    } else {
        exists|middle: Seq<(u128, Arc<Chunk>)>|
            autoloaded::<P, T, F>(op, source, first, middle, (n - 1) as nat)
                && #[trigger] autoload_round::<P, T, F>(op, source, middle, last)
    }
}

/// Whether automatic loading can end with `r` while `last` is loaded. Either the operation came
/// to a result, or the provider failed to hand out what it missed, or there were too many rounds.
pub open spec fn autoload_ends<
    P: ChunkProvider,
    T,
    F: Fn(&IdMap<Arc<Chunk>>) -> Result<T, ExtractPropertiesError>,
>(
    op: F,
    source: P,
    first: Seq<(u128, Arc<Chunk>)>,
    last: Seq<(u128, Arc<Chunk>)>,
    r: Result<T, ExtractPropertiesError>,
) -> bool {
    ||| {
        &&& !(r matches Err(ExtractPropertiesError::MissingData(_)))
        &&& exists|n: nat|
            n < MAX_AUTOLOAD_ATTEMPTS && #[trigger] autoloaded::<P, T, F>(
                op,
                source,
                first,
                last,
                n,
            )
        &&& exists|chunks: &IdMap<Arc<Chunk>>|
            chunks@ == last && #[trigger] call_ensures(op, (chunks,), r)
    }
    ||| {
        &&& r matches Err(ExtractPropertiesError::Internal(text))
        &&& exists|n: nat|
            n < MAX_AUTOLOAD_ATTEMPTS && #[trigger] autoloaded::<P, T, F>(
                op,
                source,
                first,
                last,
                n,
            )
        &&& exists|ids: Vec<u128>, e: ChunkStoreError|
            {
                &&& #[trigger] can_miss::<T, F>(op, last, ids)
                &&& #[trigger] can_reply(
                    source,
                    last,
                    ids@,
                    Err::<Vec<Arc<Chunk>>, ChunkStoreError>(e),
                )
                &&& e.text() == text@
            }
    }
    ||| {
        &&& r matches Err(ExtractPropertiesError::Internal(text))
        &&& text@ == "autoload did not converge after 1024 attempts"@
        &&& autoloaded::<P, T, F>(op, source, first, last, MAX_AUTOLOAD_ATTEMPTS as nat)
    }
}

/// Whether a chunk lies outside of a window on a timeline. A chunk of which the manifest tells no
/// time there does not.
pub open spec fn outside_window(
    manifest: ManifestView,
    id: u128,
    timeline: Seq<char>,
    window: AbsoluteTimeRange,
) -> bool {
    chunk_span(manifest.ranges, id, timeline, manifest.ranges.len()) matches Some(range)
        && range.apart(window)
}

/// The chunks that stay loaded when those outside of a window are evicted.
pub open spec fn kept_in_window(
    loaded: Seq<(u128, Arc<Chunk>)>,
    manifest: ManifestView,
    timeline: Seq<char>,
    window: AbsoluteTimeRange,
) -> Seq<(u128, Arc<Chunk>)> {
    select(
        loaded,
        flags_by(
            loaded,
            |c: (u128, Arc<Chunk>)| !outside_window(manifest, c.0, timeline, window),
        ),
    )
}

/// What an operation on a store can report.
#[derive(Debug)]
pub enum ExtractPropertiesError {
    /// Chunks that are not loaded are needed.
    MissingData(Vec<u128>),
    /// The operation failed.
    Internal(String),
}

/// How often an operation is tried again after loading what it missed.
pub const MAX_AUTOLOAD_ATTEMPTS: usize = 1024;

/// A store of chunks. Its manifest lists every chunk; chunks are loaded from a provider when they
/// are needed, and can be dropped again.
pub struct LazyChunkStore<P: ChunkProvider> {
    chunks: IdMap<Arc<Chunk>>,
    provider: P,
    store_id: StoreId,
    manifest: Arc<RrdManifest>,
    raw_manifest: Arc<RawRrdManifest>,
    chunk_id_to_index: HashMap<u128, usize>,
    timeline_ranges: IdMap<Vec<TimelineRange>>,
    cursor: StringHashMap<AbsoluteTimeRange>,
}

fn index_of_rows(manifest: &RrdManifest) -> (index: HashMap<u128, usize>)
    ensures
        forall|id: u128| #[trigger]
            index@.contains_key(id) <==> last_index(
                manifest@.chunk_ids,
                id,
                manifest@.chunk_ids.len(),
            ) is Some,
        forall|id: u128| #[trigger]
            index@.contains_key(id) ==> last_index(
                manifest@.chunk_ids,
                id,
                manifest@.chunk_ids.len(),
            ) == Some(index@[id]),
{
    let mut index: HashMap<u128, usize> = HashMap::new();
    let mut i: usize = 0;
    while i < manifest.chunk_ids.len()
        invariant
            i <= manifest.chunk_ids@.len(),
            forall|id: u128| #[trigger]
                index@.contains_key(id) <==> last_index(manifest.chunk_ids@, id, i as nat) is Some,
            forall|id: u128| #[trigger]
                index@.contains_key(id) ==> last_index(manifest.chunk_ids@, id, i as nat) == Some(
                    index@[id],
                ),
        decreases manifest.chunk_ids@.len() - i,
    {
        index.insert(manifest.chunk_ids[i], i);
        i = i + 1;
    }
    index
}

impl<P: ChunkProvider> LazyChunkStore<P> {
    /// The chunks that are loaded, in the order in which they came.
    pub closed spec fn loaded(&self) -> Seq<(u128, Arc<Chunk>)> {
        self.chunks@
    }

    /// Where chunks come from.
    pub closed spec fn source(&self) -> P {
        self.provider
    }

    /// The name of the store.
    pub closed spec fn name(&self) -> StoreId {
        self.store_id
    }

    /// The manifest.
    pub closed spec fn listing(&self) -> ManifestView {
        self.manifest@
    }

    /// The raw manifest.
    pub closed spec fn raw_listing(&self) -> RawManifestView {
        self.raw_manifest@
    }

    /// The time ranges last observed, by timeline.
    pub closed spec fn cursors(&self) -> Map<Seq<char>, AbsoluteTimeRange> {
        self.cursor@
    }

    /// Chunks are stored under their own identifiers, and the lookup tables agree with the
    /// manifest.
    pub closed spec fn wf(&self) -> bool {
        &&& self.chunks.wf()
        &&& forall|i: int|
            0 <= i < self.chunks@.len() ==> (#[trigger] self.chunks@[i]).0 == self.chunks@[i].1.id
        &&& forall|id: u128| #[trigger]
            self.chunk_id_to_index@.contains_key(id) <==> last_index(
                self.manifest@.chunk_ids,
                id,
                self.manifest@.chunk_ids.len(),
            ) is Some
        &&& forall|id: u128| #[trigger]
            self.chunk_id_to_index@.contains_key(id) ==> last_index(
                self.manifest@.chunk_ids,
                id,
                self.manifest@.chunk_ids.len(),
            ) == Some(self.chunk_id_to_index@[id])
        &&& self.timeline_ranges.wf()
        &&& indexes(self.timeline_ranges@, self.manifest@.ranges, self.manifest@.ranges.len())
    }

    /// Whether `after` differs from this store in nothing but what is loaded.
    pub open spec fn same_but_loaded(self, after: Self) -> bool {
        &&& after.source() == self.source()
        &&& after.name() == self.name()
        &&& after.listing() == self.listing()
        &&& after.raw_listing() == self.raw_listing()
        &&& after.cursors() == self.cursors()
    }

    /// A store that knows what a manifest lists and has nothing loaded.
    pub fn with_manifest(
        provider: P,
        manifest: Arc<RrdManifest>,
        raw_manifest: Arc<RawRrdManifest>,
    ) -> (r: Self)
        ensures
            r.wf(),
            r.loaded() == Seq::<(u128, Arc<Chunk>)>::empty(),
            r.source() == provider,
            r.name() == manifest@.store_id,
            r.listing() == manifest@,
            r.raw_listing() == raw_manifest@,
            r.cursors() == Map::<Seq<char>, AbsoluteTimeRange>::empty(),
    {
        let chunk_id_to_index = index_of_rows(&manifest);
        let timeline_ranges = build_timeline_ranges(&manifest);
        let store_id = manifest.store_id.clone();
        LazyChunkStore {
            chunks: IdMap::new(),
            provider,
            store_id,
            manifest,
            raw_manifest,
            chunk_id_to_index,
            timeline_ranges,
            cursor: StringHashMap::new(),
        }
    }

    /// A store over what the provider's manifest lists. Nothing is loaded yet.
    pub fn new(provider: P) -> (r: Self)
        ensures
            r.wf(),
            r.loaded() == Seq::<(u128, Arc<Chunk>)>::empty(),
            r.source() == provider,
            r.cursors() == Map::<Seq<char>, AbsoluteTimeRange>::empty(),
            r.name() == r.listing().store_id,
            exists|manifest: Arc<RrdManifest>|
                call_ensures(P::manifest, (&provider,), manifest) && r.listing()
                    == #[trigger] manifest@,
            exists|raw: Arc<RawRrdManifest>|
                call_ensures(P::raw_manifest, (&provider,), raw) && r.raw_listing()
                    == #[trigger] raw@,
    {
        let manifest = provider.manifest();
        let raw_manifest = provider.raw_manifest();
        Self::with_manifest(provider, manifest, raw_manifest)
    }

    /// The provider.
    pub fn provider(&self) -> (r: &P)
        ensures
            *r == self.source(),
    {
        &self.provider
    }

    /// Those of `chunk_ids` that are not loaded, in order.
    pub fn missing_chunks(&self, chunk_ids: &[u128]) -> (r: Vec<u128>)
        requires
            self.wf(),
        ensures
            r@ == missing(self.loaded(), chunk_ids@),
    {
        let ghost rule = |id: u128| !has_key(self.loaded(), id);
        let ghost flags = flags_by(chunk_ids@, rule);
        let mut out: Vec<u128> = Vec::new();
        let mut i: usize = 0;
        while i < chunk_ids.len()
            invariant
                i <= chunk_ids@.len(),
                self.wf(),
                rule == (|id: u128| !has_key(self.loaded(), id)),
                flags == flags_by(chunk_ids@, rule),
                out@ == select(chunk_ids@.take(i as int), flags),
            decreases chunk_ids@.len() - i,
        {
            assert(chunk_ids@.take(i + 1).drop_last() =~= chunk_ids@.take(i as int));
            let id: u128 = chunk_ids[i];
            assert(flags[i as int] == !has_key(self.loaded(), id));
            if !self.chunks.contains_key(id) {
                out.push(id);
            }
            i = i + 1;
        }
        assert(chunk_ids@.take(i as int) =~= chunk_ids@);
        out
    }

    /// Takes in chunks that were loaded. One that is there already has no effect.
    pub fn insert_chunks(&mut self, chunks: &Vec<Arc<Chunk>>)
        requires
            old(self).wf(),
        ensures
            final(self).wf(),
            final(self).loaded() == with_chunks(old(self).loaded(), chunks@, chunks@.len()),
            old(self).same_but_loaded(*final(self)),
    {
        let ghost before = *self;
        let mut i: usize = 0;
        while i < chunks.len()
            invariant
                i <= chunks@.len(),
                self.wf(),
                self.loaded() == with_chunks(before.loaded(), chunks@, i as nat),
                self.source() == before.source(),
                self.name() == before.name(),
                self.listing() == before.listing(),
                self.raw_listing() == before.raw_listing(),
                self.cursors() == before.cursors(),
            decreases chunks@.len() - i,
        {
            let chunk = share(&chunks[i]);
            let id: u128 = chunk.id;
            if !self.chunks.contains_key(id) {
                self.chunks.insert(id, chunk);
            }
            i = i + 1;
        }
    }

    /// Loads chunks from the provider and returns them. Chunks that are loaded already are not
    /// asked for; where all are, the provider is left alone.
    pub fn load_chunks(&mut self, chunk_ids: &[u128]) -> (r: Result<
        Vec<Arc<Chunk>>,
        ChunkStoreError,
    >)
        requires
            old(self).wf(),
        ensures
            final(self).wf(),
            old(self).same_but_loaded(*final(self)),
            can_reply(old(self).source(), old(self).loaded(), chunk_ids@, r),
            final(self).loaded() == after_reply(old(self).loaded(), r),
    {
        let to_load = self.missing_chunks(chunk_ids);
        if to_load.is_empty() {
            return Ok(Vec::new());
        }
        match self.provider.load_chunks(to_load.as_slice()) {
            Ok(loaded) => {
                self.insert_chunks(&loaded);
                Ok(loaded)
            },
            Err(e) => Err(e),
        }
    }

    /// Loads every chunk that the manifest lists.
    pub fn load_all_chunks(&mut self) -> (r: Result<(), ChunkStoreError>)
        requires
            old(self).wf(),
        ensures
            final(self).wf(),
            old(self).same_but_loaded(*final(self)),
            exists|reply: Result<Vec<Arc<Chunk>>, ChunkStoreError>|
                {
                    &&& #[trigger] can_reply(
                        old(self).source(),
                        old(self).loaded(),
                        old(self).listing().chunk_ids,
                        reply,
                    )
                    &&& ended_as(r, reply)
                    &&& final(self).loaded() == after_reply(old(self).loaded(), reply)
                },
    {
        let manifest = share(&self.manifest);
        match self.load_chunks(manifest.chunk_ids.as_slice()) {
            Ok(_) => Ok(()),
            Err(e) => Err(e),
        }
    }

    /// The number of chunks that the manifest lists, loaded or not.
    pub fn num_chunks(&self) -> (n: usize)
        ensures
            n == self.listing().chunk_ids.len(),
    {
        self.manifest.num_chunks()
    }

    /// The number of chunks that are loaded.
    pub fn num_physical_chunks(&self) -> (n: usize)
        ensures
            n == self.loaded().len(),
    {
        self.chunks.len()
    }

    /// Whether a chunk is loaded.
    pub fn has_physical_chunk(&self, chunk_id: u128) -> (r: bool)
        requires
            self.wf(),
        ensures
            r == has_key(self.loaded(), chunk_id),
    {
        self.chunks.contains_key(chunk_id)
    }

    /// The chunk with the given identifier, where it is loaded.
    pub fn physical_chunk(&self, chunk_id: u128) -> (r: Option<Arc<Chunk>>)
        requires
            self.wf(),
        ensures
            r == lookup(self.loaded(), chunk_id),
    {
        match self.chunks.get(chunk_id) {
            Some(chunk) => Some(share(chunk)),
            None => None,
        }
    }

    /// Loads every chunk that the manifest lists, and returns all that are then loaded.
    pub fn collect_physical_chunks(&mut self) -> (r: Result<Vec<Arc<Chunk>>, ChunkStoreError>)
        requires
            old(self).wf(),
        ensures
            final(self).wf(),
            old(self).same_but_loaded(*final(self)),
            exists|reply: Result<Vec<Arc<Chunk>>, ChunkStoreError>|
                {
                    &&& #[trigger] can_reply(
                        old(self).source(),
                        old(self).loaded(),
                        old(self).listing().chunk_ids,
                        reply,
                    )
                    &&& ended_as(r, reply)
                    &&& final(self).loaded() == after_reply(old(self).loaded(), reply)
                },
            r matches Ok(chunks) ==> chunks@ == chunks_of(final(self).loaded()),
    {
        match self.load_all_chunks() {
            Ok(_) => {},
            Err(e) => return Err(e),
        }
        let mut out: Vec<Arc<Chunk>> = Vec::new();
        let mut i: usize = 0;
        while i < self.chunks.len()
            invariant
                i <= self.chunks@.len(),
                out@ == chunks_of(self.loaded()).take(i as int),
            decreases self.chunks@.len() - i,
        {
            out.push(share(self.chunks.value_at(i)));
            i = i + 1;
            assert(out@ =~= chunks_of(self.loaded()).take(i as int));
        }
        assert(chunks_of(self.loaded()).take(i as int) =~= chunks_of(self.loaded()));
        Ok(out)
    }

    /// The manifest as it is now.
    pub fn manifest(&self) -> (r: Arc<RrdManifest>)
        ensures
            r@ == self.listing(),
    {
        share(&self.manifest)
    }

    /// The raw manifest as it is now.
    pub fn raw_manifest(&self) -> (r: Arc<RawRrdManifest>)
        ensures
            r@ == self.raw_listing(),
    {
        share(&self.raw_manifest)
    }

    /// The position of a chunk in the manifest.
    pub fn chunk_row_index(&self, chunk_id: u128) -> (r: Option<usize>)
        requires
            self.wf(),
        ensures
            r == last_index(self.listing().chunk_ids, chunk_id, self.listing().chunk_ids.len()),
    {
        match self.chunk_id_to_index.get(&chunk_id) {
            Some(i) => Some(*i),
            None => None,
        }
    }

    /// The times that a chunk covers on each timeline, or `None` for a chunk that is static or not
    /// listed.
    pub fn timeline_range(&self, chunk_id: u128) -> (r: Option<&Vec<TimelineRange>>)
        requires
            self.wf(),
        ensures
            r is Some <==> has_range(
                self.listing().ranges,
                chunk_id,
                self.listing().ranges.len(),
            ),
            r matches Some(list) ==> {
                &&& distinct_timelines(list@)
                &&& forall|timeline: Seq<char>| #[trigger]
                    listed_range(list@, timeline, list@.len()) == chunk_span(
                        self.listing().ranges,
                        chunk_id,
                        timeline,
                        self.listing().ranges.len(),
                    )
            },
    {
        let r = self.timeline_ranges.get(chunk_id);
        proof {
            assert(has_key(self.timeline_ranges@, chunk_id) <==> has_range(
                self.listing().ranges,
                chunk_id,
                self.listing().ranges.len(),
            ));
            assert(lookup(self.timeline_ranges@, chunk_id) is Some == r is Some);
            if r is Some {
                assert forall|timeline: Seq<char>| #[trigger]
                    listed_range(r->0@, timeline, r->0@.len()) == chunk_span(
                        self.listing().ranges,
                        chunk_id,
                        timeline,
                        self.listing().ranges.len(),
                    ) by {
                    assert(indexed_range(self.timeline_ranges@, chunk_id, timeline) == chunk_span(
                        self.listing().ranges,
                        chunk_id,
                        timeline,
                        self.listing().ranges.len(),
                    ));
                }
            }
        }
        r
    }

    /// The name of the store.
    pub fn store_id(&self) -> (r: &StoreId)
        ensures
            *r == self.name(),
    {
        &self.store_id
    }

    /// Replaces the manifest by a newer one. What is loaded stays loaded.
    pub fn extend_with_manifest(
        &mut self,
        manifest: Arc<RrdManifest>,
        raw_manifest: Arc<RawRrdManifest>,
    )
        requires
            old(self).wf(),
        ensures
            final(self).wf(),
            final(self).listing() == manifest@,
            final(self).raw_listing() == raw_manifest@,
            final(self).loaded() == old(self).loaded(),
            final(self).source() == old(self).source(),
            final(self).name() == old(self).name(),
            final(self).cursors() == old(self).cursors(),
    {
        let new_index = index_of_rows(&manifest);
        let new_ranges = build_timeline_ranges(&manifest);
        self.chunk_id_to_index = new_index;
        self.timeline_ranges = new_ranges;
        self.manifest = manifest;
        self.raw_manifest = raw_manifest;
    }

    /// Records the time range that is visible on `timeline`, in place of the one recorded before.
    pub fn observe_query_cursor(&mut self, timeline: &str, range: AbsoluteTimeRange)
        requires
            old(self).wf(),
        ensures
            final(self).wf(),
            final(self).cursors() == old(self).cursors().insert(timeline@, range),
            final(self).loaded() == old(self).loaded(),
            final(self).source() == old(self).source(),
            final(self).name() == old(self).name(),
            final(self).listing() == old(self).listing(),
            final(self).raw_listing() == old(self).raw_listing(),
    {
        self.cursor.insert(timeline.to_owned(), range);
    }

    /// The time range recorded last for `timeline`.
    pub fn cursor(&self, timeline: &str) -> (r: Option<AbsoluteTimeRange>)
        ensures
            r == (if self.cursors().contains_key(timeline@) {
                Some(self.cursors()[timeline@])
            } else {
                None
            }),
    {
        match self.cursor.get(timeline) {
            Some(range) => Some(*range),
            None => None,
        }
    }

    /// The number of timelines for which a time range has been recorded.
    pub fn num_cursor_observations(&self) -> (n: usize)
        ensures
            n == self.cursors().len(),
    {
        self.cursor.len()
    }

    /// Drops the loaded chunks that lie entirely outside of `keep_window` on `timeline`. Chunks
    /// are never split, and chunks without a time on `timeline` stay. What is dropped stays in the
    /// manifest and can be loaded again.
    pub fn evict_outside_window(
        &mut self,
        timeline: &str,
        keep_window: AbsoluteTimeRange,
    ) -> (stats: EvictionStats)
        requires
            old(self).wf(),
        ensures
            final(self).wf(),
            final(self).loaded() == kept_in_window(
                old(self).loaded(),
                old(self).listing(),
                timeline@,
                keep_window,
            ),
            stats.retained == final(self).loaded().len(),
            stats.evicted == old(self).loaded().len() - final(self).loaded().len(),
            old(self).same_but_loaded(*final(self)),
    {
        let ghost before = self.chunks@;
        let ghost listing = self.listing();
        let ghost rule = |c: (u128, Arc<Chunk>)|
            !outside_window(listing, c.0, timeline@, keep_window);
        let mut flags: Vec<bool> = Vec::new();
        let mut i: usize = 0;
        while i < self.chunks.len()
            invariant
                i <= self.chunks@.len(),
                self.wf(),
                listing == self.listing(),
                flags@.len() == i,
                forall|k: int|
                    0 <= k < i ==> #[trigger] flags@[k] == !outside_window(
                        listing,
                        self.chunks@[k].0,
                        timeline@,
                        keep_window,
                    ),
            decreases self.chunks@.len() - i,
        {
            let id: u128 = self.chunks.key_at(i);
            let range = match self.timeline_ranges.get(id) {
                Some(list) => find_range(list, timeline),
                None => None,
            };
            assert(range == indexed_range(self.timeline_ranges@, id, timeline@));
            let outside: bool = match range {
                Some(r) => r.max < keep_window.min || r.min > keep_window.max,
                None => false,
            };
            flags.push(!outside);
            i = i + 1;
        }
        let all: usize = self.chunks.len();
        proof {
            lemma_select_flags(before, flags@, flags_by(before, rule));
            lemma_select(before, flags@);
        }
        self.chunks.keep(&flags);
        proof {
            assert forall|k: int| 0 <= k < self.chunks@.len() implies (#[trigger]
            self.chunks@[k]).0 == self.chunks@[k].1.id by {
                assert(is_flagged(before, flags@, self.chunks@[k]));
            }
        }
        let retained: usize = self.chunks.len();
        EvictionStats { evicted: all - retained, retained }
    }

    /// Runs an operation on the loaded chunks. As long as it reports chunks that it misses, they
    /// are loaded and it is run again.
    pub fn with_autoload<T, F: Fn(&IdMap<Arc<Chunk>>) -> Result<T, ExtractPropertiesError>>(
        &mut self,
        op: F,
    ) -> (r: Result<T, ExtractPropertiesError>)
        requires
            old(self).wf(),
            forall|chunks: &IdMap<Arc<Chunk>>| #[trigger] call_requires(op, (chunks,)),
        ensures
            final(self).wf(),
            old(self).same_but_loaded(*final(self)),
            autoload_ends::<P, T, F>(
                op,
                old(self).source(),
                old(self).loaded(),
                final(self).loaded(),
                r,
            ),
    {
        let ghost first = *self;
        let mut attempt: usize = 0;
        while attempt < MAX_AUTOLOAD_ATTEMPTS
            invariant
                attempt <= MAX_AUTOLOAD_ATTEMPTS,
                first == *old(self),
                self.wf(),
                forall|chunks: &IdMap<Arc<Chunk>>| #[trigger] call_requires(op, (chunks,)),
                first.same_but_loaded(*self),
                autoloaded::<P, T, F>(
                    op,
                    first.source(),
                    first.loaded(),
                    self.loaded(),
                    attempt as nat,
                ),
            decreases MAX_AUTOLOAD_ATTEMPTS - attempt,
        {
            let result = op(&self.chunks);
            match result {
                Err(ExtractPropertiesError::MissingData(missing_ids)) => {
                    let ghost before = self.loaded();
                    assert(can_miss::<T, F>(op, before, missing_ids));
                    let reply = self.load_chunks(missing_ids.as_slice());
                    assert(can_reply(first.source(), before, missing_ids@, reply));
                    match reply {
                        Ok(_) => {
                            assert(autoload_round::<P, T, F>(
                                op,
                                first.source(),
                                before,
                                self.loaded(),
                            ));
                        },
                        Err(e) => {
                            return Err(ExtractPropertiesError::Internal(e.message()));
                        },
                    }
                },
                other => {
                    return other;
                },
            }
            attempt = attempt + 1;
        }
        Err(
            ExtractPropertiesError::Internal(
                "autoload did not converge after 1024 attempts".to_owned(),
            ),
        )
    }

    /// Drops the loaded rows in `drop_range` on `timeline`, and returns the identifiers of the
    /// chunks that had such rows. What is left of those chunks stays loaded, as chunks of their
    /// own under identifiers counted up from `first_free_id`, of which each chunk needs two at
    /// most. The manifest stays as it is.
    pub fn drop_time_range_shallow(
        &mut self,
        timeline: &str,
        drop_range: AbsoluteTimeRange,
        first_free_id: u128,
    ) -> (dropped: Vec<u128>)
        requires
            old(self).wf(),
            forall|i: int|
                0 <= i < old(self).loaded().len() ==> (#[trigger] old(self).loaded()[i]).1@.wf(),
            first_free_id + 2 * old(self).loaded().len() <= u128::MAX,
            forall|k: int|
                0 <= k < 2 * old(self).loaded().len() ==> !has_key(
                    old(self).loaded(),
                    #[trigger] counted_id(first_free_id, k),
                ),
        ensures
            final(self).wf(),
            dropped@ == dropped_ids(
                old(self).loaded(),
                timeline@,
                drop_range,
                old(self).loaded().len(),
            ),
            final(self).loaded().len() == untouched(
                old(self).loaded(),
                timeline@,
                drop_range,
            ).len() + all_leftovers(
                old(self).loaded(),
                timeline@,
                drop_range,
                first_free_id,
                old(self).loaded().len(),
            ).len(),
            forall|i: int|
                0 <= i < untouched(old(self).loaded(), timeline@, drop_range).len() ==> (#[trigger]
                final(self).loaded()[i]) == untouched(
                    old(self).loaded(),
                    timeline@,
                    drop_range,
                )[i],
            forall|k: int|
                0 <= k < all_leftovers(
                    old(self).loaded(),
                    timeline@,
                    drop_range,
                    first_free_id,
                    old(self).loaded().len(),
                ).len() ==> final(self).loaded()[untouched(
                    old(self).loaded(),
                    timeline@,
                    drop_range,
                ).len() + k].1@ == #[trigger] all_leftovers(
                    old(self).loaded(),
                    timeline@,
                    drop_range,
                    first_free_id,
                    old(self).loaded().len(),
                )[k],
            old(self).same_but_loaded(*final(self)),
    {
        let ghost before = self.chunks@;
        let mut flags: Vec<bool> = Vec::new();
        let mut dropped: Vec<u128> = Vec::new();
        let mut rest: Vec<Arc<Chunk>> = Vec::new();
        let mut free_id: u128 = first_free_id;
        let mut i: usize = 0;
        while i < self.chunks.len()
            invariant
                i <= self.chunks@.len(),
                before == self.chunks@,
                forall|k: int| 0 <= k < before.len() ==> (#[trigger] before[k]).1@.wf(),
                first_free_id + 2 * before.len() <= u128::MAX,
                flags@.len() == i,
                forall|k: int|
                    0 <= k < i ==> #[trigger] flags@[k] == !touched(
                        before[k].1@,
                        timeline@,
                        drop_range,
                    ),
                dropped@ == dropped_ids(before, timeline@, drop_range, i as nat),
                chunk_views(rest@) == all_leftovers(
                    before,
                    timeline@,
                    drop_range,
                    first_free_id,
                    i as nat,
                ),
                forall|k: int|
                    0 <= k < rest@.len() ==> (#[trigger] rest@[k]).id == first_free_id + k,
                free_id == first_free_id + rest@.len(),
                rest@.len() <= 2 * i,
            decreases self.chunks@.len() - i,
        {
            let chunk = self.chunks.value_at(i);
            let ghost so_far = rest@;
            let mut hit: bool = false;
            match find_times(chunk, timeline) {
                Some(times) => {
                    let flagged = range_flags(times, drop_range);
                    if flagged.any_inside {
                        hit = true;
                        if flagged.any_before {
                            let piece = slice_chunk(chunk, &flagged.before, free_id);
                            let piece = Arc::new(piece);
                            rest.push(piece);
                            assert(chunk_views(rest@) =~= chunk_views(so_far).push(piece@));
                            free_id = free_id + 1;
                        }
                        let ghost with_head = rest@;
                        if flagged.any_after {
                            let piece = slice_chunk(chunk, &flagged.after, free_id);
                            let piece = Arc::new(piece);
                            rest.push(piece);
                            assert(chunk_views(rest@) =~= chunk_views(with_head).push(piece@));
                            free_id = free_id + 1;
                        }
                        assert(chunk_views(rest@) =~= chunk_views(so_far) + leftovers(
                            chunk@,
                            timeline@,
                            drop_range,
                            first_free_id + so_far.len(),
                        ));
                    }
                },
                None => {},
            }
            assert(hit == touched(before[i as int].1@, timeline@, drop_range));
            flags.push(!hit);
            if hit {
                dropped.push(self.chunks.key_at(i));
            }
            i = i + 1;
        }
        let ghost rule = |c: (u128, Arc<Chunk>)| !touched(c.1@, timeline@, drop_range);
        let ghost stay = untouched(before, timeline@, drop_range);
        proof {
            lemma_select_flags(before, flags@, flags_by(before, rule));
            lemma_select(before, flags@);
        }
        self.chunks.keep(&flags);
        proof {
            assert forall|k: int| 0 <= k < self.chunks@.len() implies (#[trigger]
            self.chunks@[k]).0 == self.chunks@[k].1.id by {
                assert(is_flagged(before, flags@, self.chunks@[k]));
            }
            assert forall|k: int, m: int|
                0 <= k < self.chunks@.len() && 0 <= m < 2 * before.len() implies (#[trigger]
            self.chunks@[k]).0 != #[trigger] counted_id(first_free_id, m) by {
                assert(is_flagged(before, flags@, self.chunks@[k]));
                assert(!has_key(before, counted_id(first_free_id, m)));
            }
        }
        let mut k: usize = 0;
        while k < rest.len()
            invariant
                k <= rest@.len(),
                self.wf(),
                self.source() == old(self).source(),
                self.name() == old(self).name(),
                self.listing() == old(self).listing(),
                self.raw_listing() == old(self).raw_listing(),
                self.cursors() == old(self).cursors(),
                forall|m: int|
                    0 <= m < rest@.len() ==> (#[trigger] rest@[m]).id == first_free_id + m,
                self.chunks@.len() == stay.len() + k,
                forall|m: int| 0 <= m < stay.len() ==> (#[trigger] self.chunks@[m]) == stay[m],
                forall|m: int|
                    stay.len() <= m < stay.len() + k ==> (#[trigger] self.chunks@[m]).1
                        == rest@[m - stay.len()],
                rest@.len() <= 2 * before.len(),
                first_free_id + 2 * before.len() <= u128::MAX,
                forall|m: int, n: int|
                    0 <= m < stay.len() + k && k <= n < 2 * before.len() ==> (#[trigger]
                    self.chunks@[m]).0 != #[trigger] counted_id(first_free_id, n),
            decreases rest@.len() - k,
        {
            let piece = share(&rest[k]);
            let id: u128 = piece.id;
            assert(id == counted_id(first_free_id, k as int));
            assert(!has_key(self.chunks@, id));
            self.chunks.insert(id, piece);
            k = k + 1;
        }
        proof {
            assert forall|m: int| 0 <= m < rest@.len() implies self.loaded()[stay.len() + m].1@
                == #[trigger] chunk_views(rest@)[m] by {
                assert(self.chunks@[stay.len() + m].1 == rest@[m]);
            }
        }
        dropped
    }
}

/// The identifier `k` places after `first`.
pub open spec fn counted_id(first: u128, k: int) -> u128 {
    (first + k) as u128
}

/// The views of `chunks`.
pub open spec fn chunk_views(chunks: Seq<Arc<Chunk>>) -> Seq<ChunkView> {
    chunks.map_values(|c: Arc<Chunk>| c@)
}

/// The loaded chunks without a row in `range` on `timeline`.
pub open spec fn untouched(
    loaded: Seq<(u128, Arc<Chunk>)>,
    timeline: Seq<char>,
    range: AbsoluteTimeRange,
) -> Seq<(u128, Arc<Chunk>)> {
    select(loaded, flags_by(loaded, |c: (u128, Arc<Chunk>)| !touched(c.1@, timeline, range)))
}

/// The identifiers of those of the first `n` loaded chunks that have a row in `range` on
/// `timeline`.
pub open spec fn dropped_ids(
    loaded: Seq<(u128, Arc<Chunk>)>,
    timeline: Seq<char>,
    range: AbsoluteTimeRange,
    n: nat,
) -> Seq<u128>
    decreases n,
{
    if n == 0 {
        Seq::empty()
    } else {
        let before = dropped_ids(loaded, timeline, range, (n - 1) as nat);
        if touched(loaded[n - 1].1@, timeline, range) {
            before.push(loaded[n - 1].0)
        } else {
            before
        }
    }
}

/// What is left of those of the first `n` loaded chunks that have a row in `range` on `timeline`.
pub open spec fn all_leftovers(
    loaded: Seq<(u128, Arc<Chunk>)>,
    timeline: Seq<char>,
    range: AbsoluteTimeRange,
    id: u128,
    n: nat,
) -> Seq<ChunkView>
    decreases n,
{
    if n == 0 {
        Seq::empty()
    } else {
        let before = all_leftovers(loaded, timeline, range, id, (n - 1) as nat);
        if touched(loaded[n - 1].1@, timeline, range) {
            before + leftovers(loaded[n - 1].1@, timeline, range, id + before.len())
        } else {
            before
        }
    }
}

/// Loading chunks keeps those that are loaded.
pub proof fn loading_keeps_chunks(
    loaded: Seq<(u128, Arc<Chunk>)>,
    chunks: Seq<Arc<Chunk>>,
    n: nat,
)
    ensures
        with_chunks(loaded, chunks, n).len() >= loaded.len(),
        with_chunks(loaded, chunks, n).take(loaded.len() as int) == loaded,
    decreases n,
{
    if n == 0 {
        assert(loaded.take(loaded.len() as int) =~= loaded);
    } else {
        loading_keeps_chunks(loaded, chunks, (n - 1) as nat);
        assert(with_chunks(loaded, chunks, n).take(loaded.len() as int) =~= with_chunks(
            loaded,
            chunks,
            (n - 1) as nat,
        ).take(loaded.len() as int));
    }
}

/// The chunks themselves, without their identifiers.
pub open spec fn chunks_of(loaded: Seq<(u128, Arc<Chunk>)>) -> Seq<Arc<Chunk>> {
    loaded.map_values(|c: (u128, Arc<Chunk>)| c.1)
}

} // verus!
