//! Manifests: what is known of the chunks of a store before any of them is loaded.

use crate::chunk::{
    all_components, component_list, row_views, AudioComponent, AudioFields, AudioFieldsView, Chunk,
    ChunkView, TimeColumnView,
};
use crate::time::AbsoluteTimeRange;
use vstd::prelude::*;

verus! {

/// What a store holds.
#[derive(Debug, Clone, Copy, PartialEq, Eq, Structural)]
pub enum StoreKind {
    Recording,
    Blueprint,
}

/// Names a store.
#[derive(Debug)]
pub struct StoreId {
    pub kind: StoreKind,
    pub application_id: String,
    pub recording_id: String,
}

impl Clone for StoreId {
    fn clone(&self) -> (r: Self)
        ensures
            r == *self,
    {
        StoreId {
            kind: self.kind,
            application_id: self.application_id.clone(),
            recording_id: self.recording_id.clone(),
        }
    }
}

/// The times at which one component of a chunk is logged on one timeline.
#[derive(Debug)]
pub struct ComponentRange {
    pub timeline: String,
    pub component: AudioComponent,
    pub range: AbsoluteTimeRange,
}

/// What a component range holds.
#[verifier::ext_equal]
pub struct ComponentRangeView {
    pub timeline: Seq<char>,
    pub component: AudioComponent,
    pub range: AbsoluteTimeRange,
}

impl View for ComponentRange {
    type V = ComponentRangeView;

    open spec fn view(&self) -> ComponentRangeView {
        ComponentRangeView {
            timeline: self.timeline@,
            component: self.component,
            range: self.range,
        }
    }
}

/// The views of `ranges`.
pub open spec fn range_views(ranges: Seq<ComponentRange>) -> Seq<ComponentRangeView> {
    ranges.map_values(|r: ComponentRange| r@)
}

/// The entry of one chunk in a manifest.
#[derive(Debug)]
pub struct ManifestRow {
    pub chunk_id: u128,
    pub entity_path: String,
    pub is_static: bool,
    pub ranges: Vec<ComponentRange>,
    pub byte_offset: u64,
    pub byte_size: u64,
}

/// What a manifest entry holds.
#[verifier::ext_equal]
pub struct ManifestRowView {
    pub chunk_id: u128,
    pub entity_path: Seq<char>,
    pub is_static: bool,
    pub ranges: Seq<ComponentRangeView>,
    pub byte_offset: u64,
    pub byte_size: u64,
}

impl View for ManifestRow {
    type V = ManifestRowView;

    open spec fn view(&self) -> ManifestRowView {
        ManifestRowView {
            chunk_id: self.chunk_id,
            entity_path: self.entity_path@,
            is_static: self.is_static,
            ranges: range_views(self.ranges@),
            byte_offset: self.byte_offset,
            byte_size: self.byte_size,
        }
    }
}

/// The smallest range that covers the times of those of the first `n` rows that have the
/// component.
pub open spec fn component_span(
    times: Seq<i64>,
    rows: Seq<AudioFieldsView>,
    component: AudioComponent,
    n: nat,
) -> Option<AbsoluteTimeRange>
    decreases n,
{
    if n == 0 {
        None
    } else {
        let before = component_span(times, rows, component, (n - 1) as nat);
        if rows[n - 1].has(component) {
            let point = AbsoluteTimeRange::spec_point(times[n - 1]);
            match before {
                None => Some(point),
                Some(range) => Some(range.spec_union(point)),
            }
        } else {
            before
        }
    }
}

/// The ranges of the first `n` components on one timeline, for the components that occur.
pub open spec fn column_ranges(
    column: TimeColumnView,
    rows: Seq<AudioFieldsView>,
    n: nat,
) -> Seq<ComponentRangeView>
    decreases n,
{
    if n == 0 {
        Seq::empty()
    } else {
        let before = column_ranges(column, rows, (n - 1) as nat);
        let component = all_components()[n - 1];
        match component_span(column.times, rows, component, rows.len()) {
            Some(range) => before.push(
                ComponentRangeView { timeline: column.timeline, component, range },
            ),
            None => before,
        }
    }
}

/// The ranges of every component on the first `n` timelines of a chunk.
pub open spec fn chunk_ranges(chunk: ChunkView, n: nat) -> Seq<ComponentRangeView>
    decreases n,
{
    if n == 0 {
        Seq::empty()
    } else {
        chunk_ranges(chunk, (n - 1) as nat) + column_ranges(
            chunk.timelines[n - 1],
            chunk.rows,
            all_components().len(),
        )
    }
}

/// The manifest entry of `chunk`, stored as `size` bytes at `offset`.
pub open spec fn manifest_row(chunk: ChunkView, offset: u64, size: u64) -> ManifestRowView {
    ManifestRowView {
        chunk_id: chunk.id,
        entity_path: chunk.entity_path,
        is_static: chunk.timelines.len() == 0,
        ranges: chunk_ranges(chunk, chunk.timelines.len()),
        byte_offset: offset,
        byte_size: size,
    }
}

fn span_of(times: &Vec<i64>, rows: &Vec<AudioFields>, component: AudioComponent) -> (r: Option<
    AbsoluteTimeRange,
>)
    requires
        times@.len() == rows@.len(),
    ensures
        r == component_span(times@, row_views(rows@), component, rows@.len()),
{
    let mut range: Option<AbsoluteTimeRange> = None;
    let mut i: usize = 0;
    while i < rows.len()
        invariant
            i <= rows@.len(),
            times@.len() == rows@.len(),
            range == component_span(times@, row_views(rows@), component, i as nat),
        decreases rows@.len() - i,
    {
        assert(row_views(rows@)[i as int] == rows@[i as int]@);
        if rows[i].has(component) {
            let point = AbsoluteTimeRange::new(times[i], times[i]);
            range =
            match range {
                None => Some(point),
                Some(before) => Some(before.union(point)),
            };
        }
        i = i + 1;
    }
    range
}

impl ManifestRow {
    /// The entry of `chunk`, stored as `size` bytes at `offset`.
    pub fn of(chunk: &Chunk, offset: u64, size: u64) -> (r: Self)
        requires
            chunk@.wf(),
        ensures
            r@ == manifest_row(chunk@, offset, size),
    {
        let components = component_list();
        let mut ranges: Vec<ComponentRange> = Vec::new();
        let mut t: usize = 0;
        while t < chunk.timelines.len()
            invariant
                t <= chunk.timelines@.len(),
                chunk@.wf(),
                components@ == all_components(),
                range_views(ranges@) == chunk_ranges(chunk@, t as nat),
            decreases chunk.timelines@.len() - t,
        {
            let column = &chunk.timelines[t];
            assert(chunk@.timelines[t as int] == column@);
            let ghost before = range_views(ranges@);
            let mut c: usize = 0;
            while c < components.len()
                invariant
                    t < chunk.timelines@.len(),
                    *column == chunk.timelines@[t as int],
                    column@.times.len() == chunk.rows@.len(),
                    c <= components@.len(),
                    components@ == all_components(),
                    range_views(ranges@) == before + column_ranges(
                        column@,
                        chunk@.rows,
                        c as nat,
                    ),
                decreases components@.len() - c,
            {
                let component = components[c];
                match span_of(&column.times, &chunk.rows, component) {
                    Some(range) => {
                        let entry = ComponentRange {
                            timeline: column.timeline.clone(),
                            component,
                            range,
                        };
                        let ghost so_far = ranges@;
                        ranges.push(entry);
                        assert(range_views(ranges@) =~= range_views(so_far).push(entry@));
                    },
                    None => {},
                }
                c = c + 1;
                assert(range_views(ranges@) =~= before + column_ranges(
                    column@,
                    chunk@.rows,
                    c as nat,
                ));
            }
            t = t + 1;
        }
        ManifestRow {
            chunk_id: chunk.id,
            entity_path: chunk.entity_path.clone(),
            is_static: chunk.timelines.len() == 0,
            ranges,
            byte_offset: offset,
            byte_size: size,
        }
    }
}

/// The views of `rows`.
pub open spec fn manifest_row_views(rows: Seq<ManifestRow>) -> Seq<ManifestRowView> {
    rows.map_values(|r: ManifestRow| r@)
}

/// A manifest as it is written down: one entry per chunk, in order.
#[derive(Debug)]
pub struct RawRrdManifest {
    pub store_id: StoreId,
    pub rows: Vec<ManifestRow>,
}

/// What a raw manifest holds.
#[verifier::ext_equal]
pub struct RawManifestView {
    pub store_id: StoreId,
    pub rows: Seq<ManifestRowView>,
}

impl View for RawRrdManifest {
    type V = RawManifestView;

    open spec fn view(&self) -> RawManifestView {
        RawManifestView { store_id: self.store_id, rows: manifest_row_views(self.rows@) }
    }
}

/// The times at which one component of one chunk is logged on one timeline.
#[derive(Debug)]
pub struct ChunkRange {
    pub chunk_id: u128,
    pub timeline: String,
    pub component: AudioComponent,
    pub range: AbsoluteTimeRange,
}

/// What a chunk range holds.
#[verifier::ext_equal]
pub struct ChunkRangeView {
    pub chunk_id: u128,
    pub timeline: Seq<char>,
    pub component: AudioComponent,
    pub range: AbsoluteTimeRange,
}

impl View for ChunkRange {
    type V = ChunkRangeView;

    open spec fn view(&self) -> ChunkRangeView {
        ChunkRangeView {
            chunk_id: self.chunk_id,
            timeline: self.timeline@,
            component: self.component,
            range: self.range,
        }
    }
}

/// The views of `ranges`.
pub open spec fn chunk_range_views(ranges: Seq<ChunkRange>) -> Seq<ChunkRangeView> {
    ranges.map_values(|r: ChunkRange| r@)
}

/// A manifest prepared for lookups: the chunk identifiers in manifest order, and every range of
/// every chunk.
#[derive(Debug)]
pub struct RrdManifest {
    pub store_id: StoreId,
    pub chunk_ids: Vec<u128>,
    pub ranges: Vec<ChunkRange>,
}

/// What a manifest holds.
#[verifier::ext_equal]
pub struct ManifestView {
    pub store_id: StoreId,
    pub chunk_ids: Seq<u128>,
    pub ranges: Seq<ChunkRangeView>,
}

impl View for RrdManifest {
    type V = ManifestView;

    open spec fn view(&self) -> ManifestView {
        ManifestView {
            store_id: self.store_id,
            chunk_ids: self.chunk_ids@,
            ranges: chunk_range_views(self.ranges@),
        }
    }
}

/// The identifiers of the chunks that `rows` list, in order.
pub open spec fn row_ids(rows: Seq<ManifestRowView>) -> Seq<u128> {
    rows.map_values(|r: ManifestRowView| r.chunk_id)
}

/// The ranges of one entry, with the identifier of its chunk.
pub open spec fn ranges_of_row(row: ManifestRowView) -> Seq<ChunkRangeView> {
    row.ranges.map_values(
        |r: ComponentRangeView|
            ChunkRangeView {
                chunk_id: row.chunk_id,
                timeline: r.timeline,
                component: r.component,
                range: r.range,
            },
    )
}

/// The ranges of the first `n` entries.
pub open spec fn ranges_of_rows(rows: Seq<ManifestRowView>, n: nat) -> Seq<ChunkRangeView>
    decreases n,
{
    if n == 0 {
        Seq::empty()
    } else {
        ranges_of_rows(rows, (n - 1) as nat) + ranges_of_row(rows[n - 1])
    }
}

/// The manifest that `raw` prepares to.
pub open spec fn prepared(raw: RawManifestView) -> ManifestView {
    ManifestView {
        store_id: raw.store_id,
        chunk_ids: row_ids(raw.rows),
        ranges: ranges_of_rows(raw.rows, raw.rows.len()),
    }
}

impl RrdManifest {
    /// Prepares a raw manifest for lookups.
    pub fn from_raw(raw: &RawRrdManifest) -> (r: Self)
        ensures
            r@ == prepared(raw@),
    {
        let mut chunk_ids: Vec<u128> = Vec::new();
        let mut ranges: Vec<ChunkRange> = Vec::new();
        let mut i: usize = 0;
        while i < raw.rows.len()
            invariant
                i <= raw.rows@.len(),
                chunk_ids@ == row_ids(raw@.rows).take(i as int),
                chunk_range_views(ranges@) == ranges_of_rows(raw@.rows, i as nat),
            decreases raw.rows@.len() - i,
        {
            let row = &raw.rows[i];
            assert(raw@.rows[i as int] == row@);
            chunk_ids.push(row.chunk_id);
            let ghost before = chunk_range_views(ranges@);
            let mut j: usize = 0;
            while j < row.ranges.len()
                invariant
                    j <= row.ranges@.len(),
                    chunk_range_views(ranges@) == before + ranges_of_row(row@).take(j as int),
                decreases row.ranges@.len() - j,
            {
                let entry = ChunkRange {
                    chunk_id: row.chunk_id,
                    timeline: row.ranges[j].timeline.clone(),
                    component: row.ranges[j].component,
                    range: row.ranges[j].range,
                };
                assert(entry@ == ranges_of_row(row@)[j as int]);
                let ghost so_far = ranges@;
                ranges.push(entry);
                assert(chunk_range_views(ranges@) =~= chunk_range_views(so_far).push(entry@));
                assert(ranges_of_row(row@).take(j + 1) =~= ranges_of_row(row@).take(j as int).push(
                    entry@,
                ));
                j = j + 1;
                assert(chunk_range_views(ranges@) =~= before + ranges_of_row(row@).take(j as int));
            }
            assert(ranges_of_row(row@).take(j as int) =~= ranges_of_row(row@));
            i = i + 1;
            assert(chunk_ids@ =~= row_ids(raw@.rows).take(i as int));
        }
        assert(row_ids(raw@.rows).take(i as int) =~= row_ids(raw@.rows));
        RrdManifest { store_id: raw.store_id.clone(), chunk_ids, ranges }
    }

    /// The number of chunks that the manifest lists.
    pub fn num_chunks(&self) -> (n: usize)
        ensures
            n == self@.chunk_ids.len(),
    {
        self.chunk_ids.len()
    }
}

} // verus!
