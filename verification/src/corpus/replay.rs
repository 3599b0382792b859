//! Laying rows out as manifest entries.

use crate::corpus::chunk_builder::{
    build_placeholder_segment, build_static_chunk, placeable, placeholder_chunk, static_chunk,
};
use crate::corpus::digest::{derive_id, text_id};
use crate::corpus::order::{by_start, drop_repeats, order_rows, without_repeats};
use crate::corpus::row::CorpusChunkRow;
use crate::id_map::{lemma_upsert, unique_keys, upsert, IdMap};
use crate::manifest::{manifest_row, manifest_row_views, ManifestRow, ManifestRowView};
use vstd::hash_map::StringHashMap;
use vstd::prelude::*;

verus! {

/// What kind of chunk an entry stands for.
#[derive(Debug, Clone, Copy, PartialEq, Eq, Structural)]
pub enum ChunkKind {
    /// The chunk that announces an entity.
    Static,
    /// The chunk of one row.
    Segment,
}

/// What is needed to build a chunk on demand.
#[derive(Debug)]
pub struct ManifestEntry {
    pub row: CorpusChunkRow,
    pub chunk_id: u128,
    pub kind: ChunkKind,
}

impl Clone for ManifestEntry {
    fn clone(&self) -> (r: Self)
        ensures
            r == *self,
    {
        ManifestEntry { row: self.row.clone(), chunk_id: self.chunk_id, kind: self.kind }
    }
}

/// The size that every manifest entry records. Chunks are looked up by identifier, so that it
/// only has to differ from zero.
pub const MANIFEST_DUMMY_SIZE: u64 = 1;

/// The identifier of the chunk that announces the entity `path`.
pub open spec fn static_id(path: Seq<char>) -> u128 {
    text_id("static::"@ + path)
}

/// The identifier of the chunk that announces an entity.
pub fn derive_static_chunk_id(entity_path: &str) -> (id: u128)
    ensures
        id == static_id(entity_path@),
{
    let mut key = "static::".to_owned();
    key.append(entity_path);
    derive_id(key.as_str())
}

/// Whether one of the first `n` rows belongs to the entity `path`.
pub open spec fn entity_seen(rows: Seq<CorpusChunkRow>, n: nat, path: Seq<char>) -> bool {
    exists|j: int| 0 <= j < n && (#[trigger] rows[j]).entity() == path
}

/// The entry that announces the entity of `row`.
pub open spec fn static_entry(row: CorpusChunkRow) -> ManifestEntry {
    ManifestEntry { row, chunk_id: static_id(row.entity()), kind: ChunkKind::Static }
}

/// The entry of `row` itself.
pub open spec fn segment_entry(row: CorpusChunkRow) -> ManifestEntry {
    ManifestEntry { row, chunk_id: row.id(), kind: ChunkKind::Segment }
}

/// The entries that the first `n` rows lead to: one for each row, and before the first row of an
/// entity one that announces the entity.
pub open spec fn placed_entries(rows: Seq<CorpusChunkRow>, n: nat) -> Seq<(u128, ManifestEntry)>
    decreases n,
{
    if n == 0 {
        Seq::empty()
    } else {
        let row = rows[n - 1];
        let before = placed_entries(rows, (n - 1) as nat);
        let announced = if entity_seen(rows, (n - 1) as nat, row.entity()) {
            before
        } else {
            upsert(before, static_id(row.entity()), static_entry(row))
        };
        upsert(announced, row.id(), segment_entry(row))
    }
}

/// `listed` with one more entry, for `chunk`.
pub open spec fn listed_with(
    listed: Seq<ManifestRowView>,
    chunk: crate::chunk::ChunkView,
) -> Seq<ManifestRowView> {
    listed.push(
        manifest_row(chunk, (listed.len() * MANIFEST_DUMMY_SIZE) as u64, MANIFEST_DUMMY_SIZE),
    )
}

/// The manifest of the first `n` rows.
pub open spec fn placed_rows(rows: Seq<CorpusChunkRow>, n: nat) -> Seq<ManifestRowView>
    decreases n,
{
    if n == 0 {
        Seq::empty()
    } else {
        let row = rows[n - 1];
        let before = placed_rows(rows, (n - 1) as nat);
        let announced = if entity_seen(rows, (n - 1) as nat, row.entity()) {
            before
        } else {
            listed_with(before, static_chunk(row, static_id(row.entity())))
        };
        listed_with(announced, placeholder_chunk(row, row.id()))
    }
}

/// The rows of the segments among `entries`, in order.
pub open spec fn segment_rows(entries: Seq<(u128, ManifestEntry)>) -> Seq<CorpusChunkRow>
    decreases entries.len(),
{
    if entries.len() == 0 {
        Seq::empty()
    } else if entries.last().1.kind == ChunkKind::Segment {
        segment_rows(entries.drop_last()).push(entries.last().1.row)
    } else {
        segment_rows(entries.drop_last())
    }
}

/// The rows to lay out when `new_rows` come to `entries`: all of them by start time, without
/// repeats.
pub open spec fn replayed(
    entries: Seq<(u128, ManifestEntry)>,
    new_rows: Seq<CorpusChunkRow>,
) -> Seq<CorpusChunkRow> {
    without_repeats(by_start(segment_rows(entries) + new_rows))
}

/// Whether no row has the identifier of a chunk that announces an entity.
pub open spec fn segments_apart_from_statics(rows: Seq<CorpusChunkRow>) -> bool {
    forall|i: int, j: int|
        0 <= i < rows.len() && 0 <= j < rows.len() ==> (#[trigger] rows[i]).id() != static_id(
            (#[trigger] rows[j]).entity(),
        )
}

/// Whether announcing chunks with the same identifier announce the same entity.
pub open spec fn statics_tell_entities(rows: Seq<CorpusChunkRow>) -> bool {
    forall|i: int, j: int|
        0 <= i < rows.len() && 0 <= j < rows.len() && static_id((#[trigger] rows[i]).entity())
            == static_id((#[trigger] rows[j]).entity()) ==> rows[i].entity() == rows[j].entity()
}

/// Whether the identifiers of all chunks that `rows` lead to are distinct.
pub open spec fn identifiers_apart(rows: Seq<CorpusChunkRow>) -> bool {
    &&& forall|i: int, j: int|
        0 <= i < j < rows.len() ==> (#[trigger] rows[i]).id() != (#[trigger] rows[j]).id()
    &&& segments_apart_from_statics(rows)
    &&& statics_tell_entities(rows)
}

/// Each entry is stored under its own identifier, which is the one its kind asks for, and can be
/// laid out again.
pub open spec fn entries_wf(entries: Seq<(u128, ManifestEntry)>) -> bool {
    forall|i: int|
        0 <= i < entries.len() ==> {
            let (key, entry) = #[trigger] entries[i];
            &&& placeable(entry.row)
            &&& entry.kind == ChunkKind::Segment ==> key == entry.row.id() && entry
                == segment_entry(entry.row)
            &&& entry.kind == ChunkKind::Static ==> key == static_id(entry.row.entity()) && entry
                == static_entry(entry.row)
        }
}

pub(crate) proof fn lemma_placed_entries(rows: Seq<CorpusChunkRow>, n: nat)
    requires
        n <= rows.len(),
        forall|i: int| 0 <= i < rows.len() ==> placeable(#[trigger] rows[i]),
    ensures
        unique_keys(placed_entries(rows, n)),
        entries_wf(placed_entries(rows, n)),
    decreases n,
{
    if n > 0 {
        let row = rows[n - 1];
        let before = placed_entries(rows, (n - 1) as nat);
        lemma_placed_entries(rows, (n - 1) as nat);
        lemma_upsert(before, static_id(row.entity()), static_entry(row));
        let announced = if entity_seen(rows, (n - 1) as nat, row.entity()) {
            before
        } else {
            upsert(before, static_id(row.entity()), static_entry(row))
        };
        assert(entries_wf(announced));
        lemma_upsert(announced, row.id(), segment_entry(row));
    }
}

proof fn lemma_placed_rows_len(rows: Seq<CorpusChunkRow>, n: nat)
    ensures
        placed_rows(rows, n).len() <= 2 * n,
    decreases n,
{
    if n > 0 {
        lemma_placed_rows_len(rows, (n - 1) as nat);
    }
}

fn collect_segment_rows(entries: &IdMap<ManifestEntry>) -> (r: Vec<CorpusChunkRow>)
    ensures
        r@ == segment_rows(entries@),
{
    let mut rows: Vec<CorpusChunkRow> = Vec::new();
    let mut i: usize = 0;
    while i < entries.len()
        invariant
            i <= entries@.len(),
            rows@ == segment_rows(entries@.take(i as int)),
        decreases entries@.len() - i,
    {
        assert(entries@.take(i + 1).drop_last() =~= entries@.take(i as int));
        let entry = entries.value_at(i);
        if entry.kind == ChunkKind::Segment {
            rows.push(entry.row.clone());
        }
        i = i + 1;
    }
    assert(entries@.take(i as int) =~= entries@);
    rows
}

/// Collects the rows to lay out when `new_rows` come to `entries`.
pub fn replay_rows(entries: &IdMap<ManifestEntry>, new_rows: Vec<CorpusChunkRow>) -> (r: Vec<
    CorpusChunkRow,
>)
    ensures
        r@ == replayed(entries@, new_rows@),
{
    let mut all = collect_segment_rows(entries);
    let mut new_rows = new_rows;
    all.append(&mut new_rows);
    order_rows(&mut all);
    drop_repeats(&all)
}

/// Lays rows out: the entries from which chunks are built, and the manifest that lists them.
pub fn place_rows(rows: &Vec<CorpusChunkRow>) -> (r: (IdMap<ManifestEntry>, Vec<ManifestRow>))
    requires
        forall|i: int| 0 <= i < rows@.len() ==> placeable(#[trigger] rows@[i]),
        2 * rows@.len() <= u64::MAX,
    ensures
        r.0.wf(),
        r.0@ == placed_entries(rows@, rows@.len()),
        entries_wf(r.0@),
        manifest_row_views(r.1@) == placed_rows(rows@, rows@.len()),
{
    let mut entries: IdMap<ManifestEntry> = IdMap::new();
    let mut listed: Vec<ManifestRow> = Vec::new();
    let mut seen: StringHashMap<bool> = StringHashMap::new();
    let mut byte_cursor: u64 = 0;
    let mut i: usize = 0;
    while i < rows.len()
        invariant
            i <= rows@.len(),
            forall|k: int| 0 <= k < rows@.len() ==> placeable(#[trigger] rows@[k]),
            2 * rows@.len() <= u64::MAX,
            entries.wf(),
            entries@ == placed_entries(rows@, i as nat),
            manifest_row_views(listed@) == placed_rows(rows@, i as nat),
            byte_cursor == listed@.len(),
            forall|path: Seq<char>| #[trigger]
                seen@.contains_key(path) <==> entity_seen(rows@, i as nat, path),
        decreases rows@.len() - i,
    {
        proof {
            lemma_placed_rows_len(rows@, i as nat);
        }
        let row = &rows[i];
        let path = row.entity_path();
        let ghost listed_before = listed@;
        if !seen.contains_key(path.as_str()) {
            let static_chunk_id: u128 = derive_static_chunk_id(path.as_str());
            let chunk = build_static_chunk(row, static_chunk_id);
            let listed_row = ManifestRow::of(&chunk, byte_cursor, MANIFEST_DUMMY_SIZE);
            byte_cursor = byte_cursor + MANIFEST_DUMMY_SIZE;
            listed.push(listed_row);
            assert(manifest_row_views(listed@) =~= manifest_row_views(listed_before).push(
                listed_row@,
            ));
            entries.insert(
                static_chunk_id,
                ManifestEntry {
                    row: row.clone(),
                    chunk_id: static_chunk_id,
                    kind: ChunkKind::Static,
                },
            );
            seen.insert(path, true);
        }
        let ghost listed_announced = listed@;
        let segment_chunk_id: u128 = row.chunk_id();
        let placeholder = build_placeholder_segment(row, segment_chunk_id);
        let listed_row = ManifestRow::of(&placeholder, byte_cursor, MANIFEST_DUMMY_SIZE);
        byte_cursor = byte_cursor + MANIFEST_DUMMY_SIZE;
        listed.push(listed_row);
        assert(manifest_row_views(listed@) =~= manifest_row_views(listed_announced).push(
            listed_row@,
        ));
        entries.insert(
            segment_chunk_id,
            ManifestEntry {
                row: row.clone(),
                chunk_id: segment_chunk_id,
                kind: ChunkKind::Segment,
            },
        );
        proof {
            assert forall|p: Seq<char>| #[trigger]
                seen@.contains_key(p) <==> entity_seen(rows@, (i + 1) as nat, p) by {
                if p == row.entity() {
                    assert(rows@[i as int].entity() == p);
                }
                if entity_seen(rows@, (i + 1) as nat, p) && p != row.entity() {
                    let j = choose|j: int| 0 <= j < i + 1 && (#[trigger] rows@[j]).entity() == p;
                    assert(0 <= j < i);
                    assert(entity_seen(rows@, i as nat, p));
                }
            }
        }
        i = i + 1;
    }
    proof {
        lemma_placed_entries(rows@, rows@.len());
    }
    (entries, listed)
}

} // verus!
