//! Scanning the index table.

use crate::corpus::batch::{rows_from_record_batch, RecordBatch};
use crate::corpus::error::CorpusError;
use crate::corpus::order::{
    by_start, in_order, order_rows, ordering_is_stable, ordering_keeps_rows,
};
use crate::corpus::row::CorpusChunkRow;
use crate::text::{decimal_i64, signed_decimal};
use vstd::prelude::*;

verus! {

/// The columns that a scan asks for.
pub open spec fn projected_columns() -> Seq<Seq<char>> {
    seq![
        "chunk_id"@,
        "session_id"@,
        "room"@,
        "participant_identity"@,
        "track_id"@,
        "sequence_no"@,
        "chunk_start_ns"@,
        "chunk_end_ns"@,
        "s3_bucket"@,
        "s3_key"@,
        "byte_size"@,
        "sha256"@,
        "codec_audio"@,
    ]
}

/// The views of column names.
pub open spec fn name_views(names: Seq<&'static str>) -> Seq<Seq<char>> {
    names.map_values(|n: &'static str| n@)
}

/// Lists the columns that a scan asks for.
pub fn projection() -> (names: Vec<&'static str>)
    ensures
        name_views(names@) == projected_columns(),
{
    let names = vec![
        "chunk_id",
        "session_id",
        "room",
        "participant_identity",
        "track_id",
        "sequence_no",
        "chunk_start_ns",
        "chunk_end_ns",
        "s3_bucket",
        "s3_key",
        "byte_size",
        "sha256",
        "codec_audio",
    ];
    assert(name_views(names@) =~= projected_columns());
    names
}

/// How the index table is to be scanned.
#[derive(Debug)]
pub struct ScanPlan {
    /// Predicate on the rows, where not every row is wanted.
    pub filter: Option<String>,
}

/// Plans a scan of all rows, or of those that start after `after_ns`.
pub fn scan_plan(after_ns: Option<i64>) -> (plan: ScanPlan)
    ensures
        match (plan.filter, after_ns) {
            (Some(filter), Some(after)) => filter@ == "chunk_start_ns > "@ + signed_decimal(
                after as int,
            ),
            (None, None) => true,
            _ => false,
        },
{
    let filter = match after_ns {
        Some(after) => {
            let mut text = "chunk_start_ns > ".to_owned();
            text.append(decimal_i64(after).as_str());
            Some(text)
        },
        None => None,
    };
    ScanPlan { filter }
}

/// The rows of a first scan that are considered: at most `cap` of them, the earliest.
pub open spec fn considered(rows: Seq<CorpusChunkRow>, cap: Option<usize>) -> Seq<CorpusChunkRow> {
    match cap {
        Some(cap) => if cap < rows.len() {
            by_start(rows).take(cap as int)
        } else {
            by_start(rows)
        },
        None => by_start(rows),
    }
}

/// The considered rows are in time order and no more than the cap, no row that is left out starts
/// before one of them, and without a cap no row is left out.
pub proof fn earliest_rows_are_considered(rows: Seq<CorpusChunkRow>, cap: Option<usize>)
    ensures
        in_order(considered(rows, cap)),
        cap matches Some(cap) ==> considered(rows, Some(cap)).len() <= cap,
        considered(rows, cap).len() <= rows.len(),
        forall|i: int|
            0 <= i < considered(rows, cap).len() ==> rows.contains(
                #[trigger] considered(rows, cap)[i],
            ),
        forall|i: int, k: int|
            0 <= i < rows.len() && 0 <= k < considered(rows, cap).len() && !considered(
                rows,
                cap,
            ).contains(#[trigger] rows[i]) ==> (#[trigger] considered(rows, cap)[k]).chunk_start_ns
                <= rows[i].chunk_start_ns,
        cap is None ==> forall|i: int|
            0 <= i < rows.len() ==> considered(rows, cap).contains(#[trigger] rows[i]),
{
    let sorted = by_start(rows);
    let kept = considered(rows, cap);
    ordering_is_stable(rows);
    assert forall|i: int, j: int| 0 <= i < j < kept.len() implies (#[trigger]
    kept[i]).chunk_start_ns <= (#[trigger] kept[j]).chunk_start_ns by {
        assert(kept[i] == sorted[i] && kept[j] == sorted[j]);
    }
    assert forall|i: int| 0 <= i < kept.len() implies rows.contains(#[trigger] kept[i]) by {
        assert(kept[i] == sorted[i]);
        ordering_keeps_rows(rows, sorted[i]);
    }
    assert forall|i: int, k: int|
        0 <= i < rows.len() && 0 <= k < kept.len() && !kept.contains(
            #[trigger] rows[i],
        ) implies (#[trigger] kept[k]).chunk_start_ns <= rows[i].chunk_start_ns by {
        ordering_keeps_rows(rows, rows[i]);
        assert(rows.contains(rows[i]));
        let m = choose|m: int| 0 <= m < sorted.len() && sorted[m] == rows[i];
        if m < kept.len() {
            assert(kept[m] == rows[i]);
        }
        assert(sorted[k] == kept[k]);
    }
    if cap is None {
        assert forall|i: int| 0 <= i < rows.len() implies kept.contains(#[trigger] rows[i]) by {
            ordering_keeps_rows(rows, rows[i]);
            assert(rows.contains(rows[i]));
        }
    }
}

/// Picks the rows of a first scan that are considered. Scans and polls hand out every row; only
/// the first scan is cut.
pub fn initial_rows(rows: Vec<CorpusChunkRow>, cap: Option<usize>) -> (r: Vec<CorpusChunkRow>)
    ensures
        r@ == considered(rows@, cap),
        cap matches Some(cap) ==> r@.len() <= cap,
        in_order(r@),
{
    let ghost given = rows@;
    let mut rows = rows;
    order_rows(&mut rows);
    proof {
        earliest_rows_are_considered(given, cap);
        ordering_is_stable(given);
    }
    if let Some(cap) = cap {
        if cap < rows.len() {
            rows.truncate(cap);
        }
    }
    rows
}

/// Whether a batch decodes.
pub open spec fn decodes(batch: RecordBatch) -> bool {
    &&& batch.missing_column() is None
    &&& forall|i: int| 0 <= i < batch.num_rows ==> !#[trigger] batch.null_id(i)
}

/// What the first `n` batches decode to, in order.
pub open spec fn decoded_batches(batches: Seq<RecordBatch>, n: nat) -> Seq<CorpusChunkRow>
    decreases n,
{
    if n == 0 {
        Seq::empty()
    } else {
        decoded_batches(batches, (n - 1) as nat) + batches[n - 1].decoded_rows(
            batches[n - 1].num_rows as nat,
        )
    }
}

/// Whether `error` is what decoding `batch` ends with.
pub open spec fn decode_error(batch: RecordBatch, error: CorpusError) -> bool {
    match error {
        CorpusError::MissingColumn(name) => batch.missing_column() == Some(name@),
        CorpusError::NullCell { row, column } => {
            &&& batch.missing_column() is None
            &&& row < batch.num_rows
            &&& batch.null_id(row as int)
            &&& forall|i: int| 0 <= i < row ==> !#[trigger] batch.null_id(i)
            &&& column@ == "chunk_id"@
        },
        _ => false,
    }
}

/// Decodes the batches that a scan handed out and puts their rows in time order. The first batch
/// that does not decode ends the scan.
pub fn rows_of_scan(batches: &Vec<RecordBatch>) -> (r: Result<Vec<CorpusChunkRow>, CorpusError>)
    requires
        forall|i: int| 0 <= i < batches@.len() ==> (#[trigger] batches@[i]).wf(),
    ensures
        match r {
            Ok(rows) => {
                &&& forall|i: int| 0 <= i < batches@.len() ==> decodes(#[trigger] batches@[i])
                &&& rows@ == by_start(decoded_batches(batches@, batches@.len()))
            },
            Err(e) => exists|i: int|
                {
                    &&& 0 <= i < batches@.len()
                    &&& decode_error(#[trigger] batches@[i], e)
                    &&& forall|k: int| 0 <= k < i ==> decodes(#[trigger] batches@[k])
                },
        },
{
    let mut rows: Vec<CorpusChunkRow> = Vec::new();
    let mut i: usize = 0;
    while i < batches.len()
        invariant
            i <= batches@.len(),
            forall|k: int| 0 <= k < batches@.len() ==> (#[trigger] batches@[k]).wf(),
            forall|k: int| 0 <= k < i ==> decodes(#[trigger] batches@[k]),
            rows@ == decoded_batches(batches@, i as nat),
        decreases batches@.len() - i,
    {
        match rows_from_record_batch(&batches[i]) {
            Ok(more) => {
                let mut more = more;
                rows.append(&mut more);
                assert(decodes(batches@[i as int]));
            },
            Err(e) => {
                assert(decode_error(batches@[i as int], e));
                return Err(e);
            },
        }
        i = i + 1;
    }
    order_rows(&mut rows);
    Ok(rows)
}

} // verus!
