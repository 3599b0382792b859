//! What the provider lists and hands out, told by the rows that came.

use crate::corpus::digest::{derive_id, sha256};
use crate::corpus::lance::{
    build_segment, is_placeable, LanceCorpusProvider, LoadStep, ScanRequest, SegmentLoad,
};
use crate::corpus::replay::{
    derive_static_chunk_id, entity_seen, placed_rows, ChunkKind, ManifestEntry,
};
use crate::corpus::row::CorpusChunkRow;
use crate::id_map::{has_key, lookup};
use crate::manifest::{ManifestRowView, RawRrdManifest, RrdManifest};
use crate::store::error::{ChunkStoreError, CodecError};
use crate::text::hex;
use std::sync::Arc;
use vstd::prelude::*;

verus! {

/// The identifier of a row is that of its chunk identifier, and the identifier of the chunk that
/// announces an entity is that of the entity's path behind `static::`.
pub proof fn identifiers_come_from_names(
    row: &CorpusChunkRow,
    row_id: u128,
    name: &str,
    name_id: u128,
    path: &str,
    announced: u128,
    behind: &str,
    behind_id: u128,
)
    requires
        call_ensures(CorpusChunkRow::chunk_id, (row,), row_id),
        call_ensures(derive_id, (name,), name_id),
        name@ == row.chunk_id_str@,
        call_ensures(derive_static_chunk_id, (path,), announced),
        call_ensures(derive_id, (behind,), behind_id),
        behind@ == "static::"@ + path@,
    ensures
        row_id == name_id,
        announced == behind_id,
{
}

/// A poll brings a new manifest exactly when one of its rows has an identifier that was not known.
/// The next scan asks for what starts after the watermark, or for everything where there is none.
pub proof fn polls_tell_of_unknown_rows()
    ensures
        forall|
            provider: &mut LanceCorpusProvider,
            rows: Vec<CorpusChunkRow>,
            r: Option<(Arc<RrdManifest>, Arc<RawRrdManifest>)>,
        |
            #[trigger] call_ensures(LanceCorpusProvider::poll_for_new_rows, (provider, rows), r)
                ==> {
                &&& r is Some <==> exists|i: int|
                    0 <= i < rows@.len() && !has_key(
                        provider.known().entries,
                        (#[trigger] rows@[i]).id(),
                    )
                &&& rows@.len() == 0 ==> final(provider).known() == provider.known()
                &&& r matches Some((manifest, raw)) ==> manifest@
                    == final(provider).known().manifest && raw@
                    == final(provider).known().raw_manifest
            },
        forall|provider: &LanceCorpusProvider, r: ScanRequest|
            #[trigger] call_ensures(LanceCorpusProvider::next_scan, (provider,), r) ==> {
                &&& provider.known().watermark_ns is None ==> r == ScanRequest::All
                &&& provider.known().watermark_ns matches Some(after) ==> r == ScanRequest::After(
                    after,
                )
            },
{
    assert forall|
        provider: &mut LanceCorpusProvider,
        rows: Vec<CorpusChunkRow>,
        r: Option<(Arc<RrdManifest>, Arc<RawRrdManifest>)>,
    |
        #[trigger] call_ensures(
            LanceCorpusProvider::poll_for_new_rows,
            (provider, rows),
            r,
        ) implies {
        &&& r is Some <==> exists|i: int|
            0 <= i < rows@.len() && !has_key(
                provider.known().entries,
                (#[trigger] rows@[i]).id(),
            )
        &&& rows@.len() == 0 ==> final(provider).known() == provider.known()
        &&& r matches Some((manifest, raw)) ==> manifest@ == final(provider).known().manifest
            && raw@ == final(provider).known().raw_manifest
    } by {
    }
}

/// A chunk that is not known is refused, one that announces an entity is there at once, and for a
/// segment the audio of its row has to be fetched.
pub proof fn loads_start_with_the_entry(
    provider: &LanceCorpusProvider,
    id: u128,
    r: Result<LoadStep, ChunkStoreError>,
)
    requires
        call_ensures(LanceCorpusProvider::start_load, (provider, id), r),
    ensures
        !has_key(provider.known().entries, id) ==> r == Err::<LoadStep, ChunkStoreError>(
            ChunkStoreError::Codec(CodecError::ChunkNotInManifest { chunk_id: id }),
        ),
        lookup(provider.known().entries, id) matches Some(entry) ==> {
            &&& entry.kind == ChunkKind::Static ==> r is Ok && r->Ok_0 is Ready
            &&& entry.kind == ChunkKind::Segment ==> r == Ok::<LoadStep, ChunkStoreError>(
                LoadStep::Fetch(entry),
            )
        },
{
}

/// Audio that is not what the index promises is never built.
pub proof fn segments_are_built_of_promised_audio(
    entry: &ManifestEntry,
    bytes: &[u8],
    r: SegmentLoad,
)
    requires
        call_ensures(build_segment, (entry, bytes), r),
        entry.row.sha256 is Some,
        entry.row.sha256->0@ != hex(sha256(bytes@)),
    ensures
        r is Failed,
        r->Failed_0 is Sha256Mismatch,
{
}

/// A row can be taken in where it starts before the end of time and the numbers of its first two
/// packets can be told.
pub proof fn rows_are_taken_in_while_numbers_last(row: &CorpusChunkRow, r: bool)
    requires
        call_ensures(is_placeable, (row,), r),
    ensures
        r <==> row.sequence_no >= 0 && row.sequence_no * 1_000_000 + 1 <= u64::MAX
            && row.chunk_start_ns < i64::MAX,
{
}

/// Whether an entry announces an entity.
pub open spec fn announces(entry: ManifestRowView, path: Seq<char>) -> bool {
    entry.is_static && entry.entity_path == path && entry.ranges.len() == 0
}

/// Whether an entry is that of the segment of a row.
pub open spec fn lists_segment(entry: ManifestRowView, row: CorpusChunkRow) -> bool {
    !entry.is_static && entry.entity_path == row.entity() && entry.chunk_id == row.id()
}

/// The manifest lists the segment of every row, in the order of the rows, and the entity of each
/// is announced before it; each entity is announced once.
pub proof fn manifests_list_rows_behind_their_announcement(rows: Seq<CorpusChunkRow>, n: nat)
    requires
        n <= rows.len(),
    ensures
        placed_rows(rows, n).filter(|e: ManifestRowView| !e.is_static).len() == n,
        forall|j: int|
            0 <= j < n ==> lists_segment(
                placed_rows(rows, n).filter(|e: ManifestRowView| !e.is_static)[j],
                #[trigger] rows[j],
            ),
        forall|j: int|
            0 <= j < n ==> exists|a: int, s: int|
                0 <= a < s < placed_rows(rows, n).len() && announces(
                    #[trigger] placed_rows(rows, n)[a],
                    (#[trigger] rows[j]).entity(),
                ) && lists_segment(#[trigger] placed_rows(rows, n)[s], rows[j]),
        placed_rows(rows, n).len() >= n,
        forall|a: int, b: int|
            0 <= a < b < placed_rows(rows, n).len() && (#[trigger] placed_rows(
                rows,
                n,
            )[a]).is_static && (#[trigger] placed_rows(rows, n)[b]).is_static
                ==> placed_rows(rows, n)[a].entity_path != placed_rows(rows, n)[b].entity_path,
        forall|a: int|
            0 <= a < placed_rows(rows, n).len() && (#[trigger] placed_rows(rows, n)[a]).is_static
                ==> entity_seen(rows, n, placed_rows(rows, n)[a].entity_path),
    decreases n,
{
    reveal(Seq::filter);
    let pred = |e: ManifestRowView| !e.is_static;
    let now = placed_rows(rows, n);
    if n > 0 {
        let m = (n - 1) as nat;
        manifests_list_rows_behind_their_announcement(rows, m);
        let row = rows[m as int];
        let before = placed_rows(rows, m);
        let seen = entity_seen(rows, m, row.entity());
        let announced = now.drop_last();
        let last = now.last();
        assert(now =~= announced.push(last));
        assert(lists_segment(last, row));
        if seen {
            assert(announced =~= before);
        } else {
            assert(announced.drop_last() =~= before);
            assert(announces(announced.last(), row.entity()));
        }
        assert(announced.filter(pred) == before.filter(pred));
        assert(now.filter(pred) == before.filter(pred).push(last));
        assert forall|j: int| 0 <= j < n implies lists_segment(
            now.filter(pred)[j],
            #[trigger] rows[j],
        ) by {
            if j < m {
                assert(now.filter(pred)[j] == before.filter(pred)[j]);
            }
        }
        let end = now.len() - 1;
        assert forall|j: int| 0 <= j < n implies exists|a: int, s: int|
            0 <= a < s < now.len() && announces(#[trigger] now[a], (#[trigger] rows[j]).entity())
                && lists_segment(#[trigger] now[s], rows[j]) by {
            if j < m {
                let (a, s) = choose|a: int, s: int|
                    0 <= a < s < before.len() && announces(#[trigger] before[a], rows[j].entity())
                        && lists_segment(#[trigger] before[s], rows[j]);
                assert(announces(now[a], rows[j].entity()) && lists_segment(now[s], rows[j]));
            } else if seen {
                let k = choose|k: int| 0 <= k < m && (#[trigger] rows[k]).entity()
                    == row.entity();
                let (a, s) = choose|a: int, s: int|
                    0 <= a < s < before.len() && announces(#[trigger] before[a], rows[k].entity())
                        && lists_segment(#[trigger] before[s], rows[k]);
                assert(announces(now[a], row.entity()) && lists_segment(now[end], row));
            } else {
                let a = before.len() as int;
                assert(announces(now[a], row.entity()) && lists_segment(now[end], row));
            }
        }
        assert forall|a: int| 0 <= a < now.len() && (#[trigger] now[a]).is_static implies entity_seen(
            rows,
            n,
            now[a].entity_path,
        ) by {
            if a < before.len() {
                assert(now[a] == before[a]);
                let s = choose|s: int| 0 <= s < m && (#[trigger] rows[s]).entity()
                    == before[a].entity_path;
                assert(rows[s].entity() == now[a].entity_path);
            } else {
                assert(rows[m as int].entity() == now[a].entity_path);
            }
        }
        assert forall|a: int, b: int|
            0 <= a < b < now.len() && (#[trigger] now[a]).is_static && (#[trigger]
            now[b]).is_static implies now[a].entity_path != now[b].entity_path by {
            assert(now[a] == before[a]);
            if b < before.len() {
                assert(now[b] == before[b]);
            } else {
                assert(entity_seen(rows, m, before[a].entity_path));
            }
        }
    } else {
        assert(now.filter(pred) =~= Seq::<ManifestRowView>::empty());
    }
}

/// The entries of a manifest stand one right behind the other: each begins where the one before
/// it ends, and none is empty.
pub proof fn entries_stand_one_behind_the_other(rows: Seq<CorpusChunkRow>, n: nat, i: int)
    requires
        0 <= i < placed_rows(rows, n).len(),
        2 * n <= u64::MAX,
    ensures
        placed_rows(rows, n).len() <= 2 * n,
        placed_rows(rows, n)[i].byte_size > 0,
        i == 0 ==> placed_rows(rows, n)[i].byte_offset == 0,
        i > 0 ==> placed_rows(rows, n)[i].byte_offset == placed_rows(rows, n)[i - 1].byte_offset
            + placed_rows(rows, n)[i - 1].byte_size,
{
    lemma_offsets(rows, n);
    assert(placed_rows(rows, n)[i].byte_offset == i);
    if i > 0 {
        assert(placed_rows(rows, n)[i - 1].byte_offset == i - 1);
    }
}

proof fn lemma_offsets(rows: Seq<CorpusChunkRow>, n: nat)
    requires
        2 * n <= u64::MAX,
    ensures
        placed_rows(rows, n).len() <= 2 * n,
        forall|i: int|
            0 <= i < placed_rows(rows, n).len() ==> (#[trigger] placed_rows(rows, n)[i]).byte_offset
                == i && placed_rows(rows, n)[i].byte_size == 1,
    decreases n,
{
    if n > 0 {
        lemma_offsets(rows, (n - 1) as nat);
    }
}

} // verus!
