//! What a lazy store offers, whatever backs it.

use crate::chunk::Chunk;
use crate::id_map::lookup;
use crate::manifest::{ManifestView, RawManifestView, RawRrdManifest, RrdManifest, StoreId};
use crate::store::chunk_provider::ChunkProvider;
use crate::store::error::ChunkStoreError;
use crate::store::lazy::{
    after_reply, can_reply, chunks_of, ended_as, last_index, LazyChunkStore,
};
use crate::store::timeline_index::{
    chunk_span, distinct_timelines, has_range, listed_range, TimelineRange,
};
use crate::time::AbsoluteTimeRange;
use std::sync::Arc;
use vstd::prelude::*;

verus! {

/// A store whose chunks are known up front and loaded on demand.
pub trait LazyStore {
    /// The store is in order.
    spec fn in_order(&self) -> bool;

    /// What the store is called.
    spec fn called(&self) -> StoreId;

    /// The chunks that are loaded, by identifier, in the order in which they came.
    spec fn held(&self) -> Seq<(u128, Arc<Chunk>)>;

    /// What the manifest lists.
    spec fn listed(&self) -> ManifestView;

    /// What the raw manifest lists.
    spec fn raw_listed(&self) -> RawManifestView;

    /// Whether `reply` can come of asking for `ids`.
    spec fn may_reply(
        &self,
        ids: Seq<u128>,
        reply: Result<Vec<Arc<Chunk>>, ChunkStoreError>,
    ) -> bool;

    /// The name of the store.
    fn store_id(&self) -> (r: &StoreId)
        ensures
            *r == self.called(),
    ;

    /// The chunk with the given identifier, where it is loaded.
    fn physical_chunk(&self, id: u128) -> (r: Option<Arc<Chunk>>)
        requires
            self.in_order(),
        ensures
            r == lookup(self.held(), id),
    ;

    /// The manifest as it is now.
    fn manifest(&self) -> (r: Arc<RrdManifest>)
        ensures
            r@ == self.listed(),
    ;

    /// The raw manifest as it is now.
    fn raw_manifest(&self) -> (r: Arc<RawRrdManifest>)
        ensures
            r@ == self.raw_listed(),
    ;

    /// The number of chunks that the manifest lists.
    fn num_chunks(&self) -> (n: usize)
        ensures
            n == self.listed().chunk_ids.len(),
    ;

    /// The position of a chunk in the manifest.
    fn chunk_row_index(&self, id: u128) -> (r: Option<usize>)
        requires
            self.in_order(),
        ensures
            r == last_index(self.listed().chunk_ids, id, self.listed().chunk_ids.len()),
    ;

    /// The times that a chunk covers on each timeline.
    fn timeline_range(&self, id: u128) -> (r: Option<&Vec<TimelineRange>>)
        requires
            self.in_order(),
        ensures
            r is Some <==> has_range(self.listed().ranges, id, self.listed().ranges.len()),
            r matches Some(list) ==> {
                &&& distinct_timelines(list@)
                &&& forall|timeline: Seq<char>| #[trigger]
                    listed_range(list@, timeline, list@.len()) == chunk_span(
                        self.listed().ranges,
                        id,
                        timeline,
                        self.listed().ranges.len(),
                    )
            },
    ;

    /// Loads chunks. Those that come are held from then on; a failure changes nothing.
    fn load_chunks(&mut self, ids: &[u128]) -> (r: Result<Vec<Arc<Chunk>>, ChunkStoreError>)
        requires
            old(self).in_order(),
        ensures
            final(self).in_order(),
            final(self).called() == old(self).called(),
            final(self).listed() == old(self).listed(),
            final(self).raw_listed() == old(self).raw_listed(),
            old(self).may_reply(ids@, r),
            final(self).held() == after_reply(old(self).held(), r),
    ;

    /// Loads every chunk and returns all that are then loaded.
    fn collect_physical_chunks(&mut self) -> (r: Result<Vec<Arc<Chunk>>, ChunkStoreError>)
        requires
            old(self).in_order(),
        ensures
            final(self).in_order(),
            final(self).called() == old(self).called(),
            final(self).listed() == old(self).listed(),
            final(self).raw_listed() == old(self).raw_listed(),
            exists|reply: Result<Vec<Arc<Chunk>>, ChunkStoreError>|
                {
                    &&& #[trigger] old(self).may_reply(old(self).listed().chunk_ids, reply)
                    &&& ended_as(r, reply)
                    &&& final(self).held() == after_reply(old(self).held(), reply)
                },
            r matches Ok(chunks) ==> chunks@ == chunks_of(final(self).held()),
    ;

    /// Records the time range that is visible on `timeline`. A store that evicts nothing has no
    /// use for it.
    fn observe_query_cursor(&mut self, timeline: &str, range: AbsoluteTimeRange)
        requires
            old(self).in_order(),
        ensures
            final(self).in_order(),
            final(self).called() == old(self).called(),
            final(self).held() == old(self).held(),
            final(self).listed() == old(self).listed(),
            final(self).raw_listed() == old(self).raw_listed(),
    {
    }
}

impl<P: ChunkProvider> LazyStore for LazyChunkStore<P> {
    open spec fn in_order(&self) -> bool {
        self.wf()
    }

    open spec fn called(&self) -> StoreId {
        self.name()
    }

    open spec fn held(&self) -> Seq<(u128, Arc<Chunk>)> {
        self.loaded()
    }

    open spec fn listed(&self) -> ManifestView {
        self.listing()
    }

    open spec fn raw_listed(&self) -> RawManifestView {
        self.raw_listing()
    }

    open spec fn may_reply(
        &self,
        ids: Seq<u128>,
        reply: Result<Vec<Arc<Chunk>>, ChunkStoreError>,
    ) -> bool {
        can_reply(self.source(), self.loaded(), ids, reply)
    }

    fn store_id(&self) -> (r: &StoreId) {
        LazyChunkStore::store_id(self)
    }

    fn physical_chunk(&self, id: u128) -> (r: Option<Arc<Chunk>>) {
        LazyChunkStore::physical_chunk(self, id)
    }

    fn manifest(&self) -> (r: Arc<RrdManifest>) {
        LazyChunkStore::manifest(self)
    }

    fn raw_manifest(&self) -> (r: Arc<RawRrdManifest>) {
        LazyChunkStore::raw_manifest(self)
    }

    fn num_chunks(&self) -> (n: usize) {
        LazyChunkStore::num_chunks(self)
    }

    fn chunk_row_index(&self, id: u128) -> (r: Option<usize>) {
        LazyChunkStore::chunk_row_index(self, id)
    }

    fn timeline_range(&self, id: u128) -> (r: Option<&Vec<TimelineRange>>) {
        LazyChunkStore::timeline_range(self, id)
    }

    fn load_chunks(&mut self, ids: &[u128]) -> (r: Result<Vec<Arc<Chunk>>, ChunkStoreError>)
        ensures
            old(self).same_but_loaded(*final(self)),
    {
        LazyChunkStore::load_chunks(self, ids)
    }

    fn collect_physical_chunks(&mut self) -> (r: Result<Vec<Arc<Chunk>>, ChunkStoreError>)
        ensures
            old(self).same_but_loaded(*final(self)),
    {
        let ghost before = *self;
        let r = LazyChunkStore::collect_physical_chunks(self);
        proof {
            let reply = choose|reply: Result<Vec<Arc<Chunk>>, ChunkStoreError>|
                {
                    &&& #[trigger] can_reply(
                        before.source(),
                        before.loaded(),
                        before.listing().chunk_ids,
                        reply,
                    )
                    &&& ended_as(r, reply)
                    &&& self.loaded() == after_reply(before.loaded(), reply)
                };
            assert(before.may_reply(before.listed().chunk_ids, reply));
        }
        r
    }

    fn observe_query_cursor(&mut self, timeline: &str, range: AbsoluteTimeRange)
        ensures
            final(self).cursors() == old(self).cursors().insert(timeline@, range),
            final(self).source() == old(self).source(),
    {
        LazyChunkStore::observe_query_cursor(self, timeline, range)
    }
}

} // verus!
