//! What becomes of the rows of a scan, told by cells, identifiers and times.

use crate::corpus::batch::{column_position, rows_from_record_batch, RecordBatch};
use crate::corpus::digest::{big_endian, derive_id, sha256};
use crate::corpus::error::CorpusError;
use crate::corpus::order::{has_identifier, without_repeats};
use crate::corpus::row::CorpusChunkRow;
use crate::corpus::s3::check_object;
use crate::corpus::scan::{decoded_batches, scan_plan, ScanPlan};
use crate::text::{hex, signed_decimal};
use crate::text_laws::{read_signed, signed_decimals_read_back};
use vstd::prelude::*;
use vstd::utf8::encode_utf8;

verus! {

/// Of rows with the same chunk identifier the first is kept, and only the first.
pub proof fn the_first_of_repeats_is_kept(rows: Seq<CorpusChunkRow>)
    ensures
        without_repeats(rows) == Seq::new(rows.len(), |i: int| i).filter(
            |i: int|
                forall|j: int|
                    0 <= j < i ==> (#[trigger] rows[j]).chunk_id_str@ != rows[i].chunk_id_str@,
        ).map_values(|i: int| rows[i]),
{
    lemma_first_kept(rows, rows.len());
    assert(rows.take(rows.len() as int) =~= rows);
}

proof fn lemma_first_kept(rows: Seq<CorpusChunkRow>, n: nat)
    requires
        n <= rows.len(),
    ensures
        without_repeats(rows.take(n as int)) == Seq::new(n, |i: int| i).filter(
            |i: int|
                forall|j: int|
                    0 <= j < i ==> (#[trigger] rows[j]).chunk_id_str@ != rows[i].chunk_id_str@,
        ).map_values(|i: int| rows[i]),
    decreases n,
{
    reveal(Seq::filter);
    let first = |i: int|
        forall|j: int| 0 <= j < i ==> (#[trigger] rows[j]).chunk_id_str@ != rows[i].chunk_id_str@;
    let at = |i: int| rows[i];
    let places = Seq::new(n, |i: int| i);
    if n == 0 {
        assert(without_repeats(rows.take(0)) =~= places.filter(first).map_values(at));
    } else {
        let m = (n - 1) as nat;
        lemma_first_kept(rows, m);
        let before = Seq::new(m, |i: int| i);
        assert(places.drop_last() =~= before);
        assert(rows.take(n as int).drop_last() =~= rows.take(m as int));
        let earlier = rows.take(m as int);
        if first(m as int) {
            assert(!has_identifier(earlier, rows[m as int].chunk_id_str@)) by {
                if has_identifier(earlier, rows[m as int].chunk_id_str@) {
                    let j = choose|j: int|
                        0 <= j < earlier.len() && (#[trigger] earlier[j]).chunk_id_str@
                            == rows[m as int].chunk_id_str@;
                    assert(rows[j].chunk_id_str@ != rows[m as int].chunk_id_str@);
                }
            }
            assert(places.filter(first).map_values(at) =~= before.filter(first).map_values(at).push(
                rows[m as int],
            ));
        } else {
            let j = choose|j: int|
                0 <= j < m && (#[trigger] rows[j]).chunk_id_str@ == rows[m as int].chunk_id_str@;
            assert(earlier[j].chunk_id_str@ == rows[m as int].chunk_id_str@);
            assert(has_identifier(earlier, rows[m as int].chunk_id_str@));
        }
    }
}

proof fn lemma_first_column(batch: RecordBatch, name: Seq<char>, c: int, n: nat)
    requires
        n <= batch.columns@.len(),
        0 <= c < n,
        batch.columns@[c].name@ == name,
        forall|d: int| 0 <= d < c ==> (#[trigger] batch.columns@[d]).name@ != name,
    ensures
        column_position(batch.columns@, name, n) == Some(c),
        forall|k: nat| k <= c ==> #[trigger] column_position(batch.columns@, name, k) is None,
    decreases n,
{
    assert forall|k: nat| k <= c implies #[trigger] column_position(
        batch.columns@,
        name,
        k,
    ) is None by {
        lemma_no_column(batch, name, k);
    }
    if n - 1 > c {
        lemma_first_column(batch, name, c, (n - 1) as nat);
    }
}

proof fn lemma_no_column(batch: RecordBatch, name: Seq<char>, k: nat)
    requires
        k <= batch.columns@.len(),
        forall|d: int| 0 <= d < k ==> (#[trigger] batch.columns@[d]).name@ != name,
    ensures
        column_position(batch.columns@, name, k) is None,
    decreases k,
{
    if k > 0 {
        lemma_no_column(batch, name, (k - 1) as nat);
    }
}

/// A text cell lands in the field that the name of its column says, where that column is the
/// first of its name.
pub proof fn text_cells_land_in_their_field(batch: RecordBatch, c: int, i: int)
    requires
        0 <= c < batch.columns@.len(),
        batch.columns@[c].values is Utf8,
        forall|d: int|
            0 <= d < c ==> (#[trigger] batch.columns@[d]).name@ != batch.columns@[c].name@,
    ensures
        ({
            let name = batch.columns@[c].name@;
            let column = batch.columns@[c].values->Utf8_0;
            let cell = column.values@[i];
            let row = batch.decoded(i);
            let given = if column.nulls@[i] || cell@.len() == 0 {
                None
            } else {
                Some(cell)
            };
            &&& name == "chunk_id"@ ==> row.chunk_id_str == cell
            &&& name == "room"@ ==> row.room == cell
            &&& name == "participant_identity"@ ==> row.participant_identity == cell
            &&& name == "track_id"@ ==> row.track_id == cell
            &&& name == "s3_bucket"@ ==> row.s3_bucket == cell
            &&& name == "s3_key"@ ==> row.s3_key == cell
            &&& name == "sha256"@ ==> row.sha256 == given
            &&& name == "codec_audio"@ ==> row.codec_audio == given
        }),
{
    lemma_first_column(batch, batch.columns@[c].name@, c, batch.columns@.len());
}

/// A whole number lands in the field that the name of its column says, where that column is the
/// first of its name.
pub proof fn number_cells_land_in_their_field(batch: RecordBatch, c: int, i: int)
    requires
        0 <= c < batch.columns@.len(),
        batch.columns@[c].values is Int64,
        forall|d: int|
            0 <= d < c ==> (#[trigger] batch.columns@[d]).name@ != batch.columns@[c].name@,
    ensures
        ({
            let name = batch.columns@[c].name@;
            let cell = batch.columns@[c].values->Int64_0@[i];
            let row = batch.decoded(i);
            &&& name == "sequence_no"@ ==> row.sequence_no == cell
            &&& name == "chunk_start_ns"@ ==> row.chunk_start_ns == cell
            &&& name == "chunk_end_ns"@ ==> row.chunk_end_ns == cell
        }),
{
    lemma_first_column(batch, batch.columns@[c].name@, c, batch.columns@.len());
}

proof fn lemma_decoded_rows(batch: RecordBatch, n: nat)
    ensures
        batch.decoded_rows(n) == Seq::new(n, |i: int| batch.decoded(i)).filter(
            |r: CorpusChunkRow| r.s3_bucket@.len() > 0 && r.s3_key@.len() > 0,
        ),
    decreases n,
{
    reveal(Seq::filter);
    let all = Seq::new(n, |i: int| batch.decoded(i));
    let pred = |r: CorpusChunkRow| r.s3_bucket@.len() > 0 && r.s3_key@.len() > 0;
    if n == 0 {
        assert(batch.decoded_rows(0) =~= all.filter(pred));
    } else {
        lemma_decoded_rows(batch, (n - 1) as nat);
        assert(all.drop_last() =~= Seq::new((n - 1) as nat, |i: int| batch.decoded(i)));
        assert(pred(all.last()) == batch.published(n - 1));
    }
}

/// A batch decodes to its rows in order, without those that name no bucket or no key.
pub proof fn unpublished_rows_are_passed_over(
    batch: &RecordBatch,
    r: Result<Vec<CorpusChunkRow>, CorpusError>,
)
    requires
        call_ensures(rows_from_record_batch, (batch,), r),
        r is Ok,
    ensures
        r->Ok_0@ == Seq::new(batch.num_rows as nat, |i: int| batch.decoded(i)).filter(
            |row: CorpusChunkRow| row.s3_bucket@.len() > 0 && row.s3_key@.len() > 0,
        ),
{
    lemma_decoded_rows(*batch, batch.num_rows as nat);
}

/// The rows of several batches are those of each of them, one batch after the other.
pub proof fn batches_follow_one_another(batches: Seq<RecordBatch>, n: nat)
    ensures
        decoded_batches(batches, n) == Seq::new(
            n,
            |k: int| batches[k].decoded_rows(batches[k].num_rows as nat),
        ).fold_left(
            Seq::<CorpusChunkRow>::empty(),
            |all: Seq<CorpusChunkRow>, rows: Seq<CorpusChunkRow>| all + rows,
        ),
    decreases n,
{
    let parts = Seq::new(n, |k: int| batches[k].decoded_rows(batches[k].num_rows as nat));
    if n > 0 {
        batches_follow_one_another(batches, (n - 1) as nat);
        assert(parts.drop_last() =~= Seq::new(
            (n - 1) as nat,
            |k: int| batches[k].decoded_rows(batches[k].num_rows as nat),
        ));
    }
}

/// A scan for new rows asks for those that start after the given time: the number in its filter
/// reads back as that time.
pub proof fn scans_ask_for_what_comes_after(after_ns: Option<i64>, plan: ScanPlan)
    requires
        call_ensures(scan_plan, (after_ns,), plan),
    ensures
        after_ns is None ==> plan.filter is None,
        after_ns matches Some(after) ==> {
            &&& plan.filter is Some
            &&& plan.filter->0@.len() > 17
            &&& plan.filter->0@.take(17) == "chunk_start_ns > "@
            &&& read_signed(plan.filter->0@.skip(17)) == after
        },
{
    reveal_strlit("chunk_start_ns > ");
    if let Some(after) = after_ns {
        signed_decimals_read_back(after as int);
        let number = signed_decimal(after as int);
        let text = plan.filter->0@;
        crate::text_laws::decimals_read_back(
            if after < 0 {
                (-after) as nat
            } else {
                after as nat
            },
        );
        assert(text.take(17) =~= "chunk_start_ns > "@);
        assert(text.skip(17) =~= number);
    }
}

proof fn lemma_big_endian(bytes: Seq<u8>)
    ensures
        big_endian(bytes) == bytes.fold_left(0int, |n: int, b: u8| 256 * n + b),
    decreases bytes.len(),
{
    if bytes.len() > 0 {
        lemma_big_endian(bytes.drop_last());
    }
}

proof fn lemma_fits(bytes: Seq<u8>, bound: int)
    requires
        bytes.len() <= 16,
        bound == vstd::arithmetic::power::pow(256, bytes.len()),
    ensures
        0 <= bytes.fold_left(0int, |n: int, b: u8| 256 * n + b) < bound,
    decreases bytes.len(),
{
    reveal(vstd::arithmetic::power::pow);
    if bytes.len() > 0 {
        lemma_fits(
            bytes.drop_last(),
            vstd::arithmetic::power::pow(256, (bytes.len() - 1) as nat),
        );
    }
}

/// The identifier of a text is the number that the first sixteen bytes of its digest make, the
/// first of them counting most.
pub proof fn identifiers_are_the_front_of_a_digest(text: &str, id: u128)
    requires
        call_ensures(derive_id, (text,), id),
        sha256(encode_utf8(text@)).len() == 32,
    ensures
        id == sha256(encode_utf8(text@)).take(16).fold_left(0int, |n: int, b: u8| 256 * n + b),
{
    let front = sha256(encode_utf8(text@)).take(16);
    lemma_big_endian(front);
    reveal_with_fuel(vstd::arithmetic::power::pow, 17);
    assert(vstd::arithmetic::power::pow(256, 16) == u128::MAX + 1) by {
        reveal_with_fuel(vstd::arithmetic::power::pow, 17);
    }
    lemma_fits(front, vstd::arithmetic::power::pow(256, 16));
}

/// Bytes are taken exactly when no digest is promised or theirs is the one that is.
pub proof fn objects_are_held_to_their_digest(
    bucket: &str,
    key: &str,
    bytes: &[u8],
    expected: &Option<String>,
    r: Result<(), CorpusError>,
)
    requires
        call_ensures(check_object, (bucket, key, bytes, expected), r),
    ensures
        *expected is None ==> r is Ok,
        *expected matches Some(digest) ==> (r is Ok <==> digest@ == hex(sha256(bytes@))),
        r matches Err(e) ==> e is Sha256Mismatch,
{
}

} // verus!
