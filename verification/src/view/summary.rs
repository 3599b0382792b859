//! What a view tells of a stream.

use crate::audio::codec::AudioCodecKind;
use vstd::prelude::*;

verus! {

/// Static configuration of a stream.
#[derive(Debug, Clone, Copy, PartialEq, Eq, Structural)]
pub struct AudioStreamConfig {
    pub codec: AudioCodecKind,
    pub sample_rate: u32,
    pub channel_count: u16,
}

/// Diagnostics of one stream.
#[derive(Debug)]
pub struct AudioStreamSummary {
    pub entity_path: String,
    /// Static configuration, or `None` while a part of it has not been logged.
    pub config: Option<AudioStreamConfig>,
    /// Number of rows observed.
    pub segment_count: usize,
    /// Sum of the durations, or `None` when a row has no duration.
    pub total_samples: Option<u64>,
    /// Number of rows that play before the row that precedes them.
    pub out_of_order: usize,
    /// Number of rows that are marked as discontinuities.
    pub discontinuities: usize,
    /// Number of sequence numbers that do not follow the one seen before, or `None` when there
    /// are no sequence numbers.
    pub sequence_gaps: Option<usize>,
    /// Times of the first and the last row.
    pub pts_range: Option<(i64, i64)>,
}

/// The visualizer that makes summaries of streams.
#[derive(Debug, Clone, Copy)]
pub struct AudioStreamVisualizerSystem;

impl Default for AudioStreamVisualizerSystem {
    fn default() -> (r: Self)
        ensures
            r == AudioStreamVisualizerSystem,
    {
        AudioStreamVisualizerSystem
    }
}

impl AudioStreamVisualizerSystem {
    /// The name under which the visualizer is registered.
    pub fn identifier() -> (r: &'static str)
        ensures
            r@ == "AudioStream"@,
    {
        "AudioStream"
    }
}

/// What is logged of a stream in one row.
#[derive(Debug, Clone, Copy, PartialEq, Eq, Structural)]
pub struct SummaryRow {
    pub time: i64,
    pub duration_samples: Option<u64>,
    pub discontinuity: Option<bool>,
    pub sequence_number: Option<u64>,
}

/// What is known of the parts of a static configuration.
#[derive(Debug, Clone, Copy, PartialEq, Eq, Structural)]
pub struct ConfigParts {
    pub codec: Option<AudioCodecKind>,
    pub sample_rate: Option<u32>,
    pub channel_count: Option<u16>,
}

/// Puts a static configuration together, where all of its parts are known.
pub fn resolve_static_config(parts: ConfigParts) -> (r: Option<AudioStreamConfig>)
    ensures
        match r {
            Some(config) => parts == (ConfigParts {
                codec: Some(config.codec),
                sample_rate: Some(config.sample_rate),
                channel_count: Some(config.channel_count),
            }),
            None => parts.codec is None || parts.sample_rate is None || parts.channel_count
                is None,
        },
{
    match (parts.codec, parts.sample_rate, parts.channel_count) {
        (Some(codec), Some(sample_rate), Some(channel_count)) => Some(
            AudioStreamConfig { codec, sample_rate, channel_count },
        ),
        _ => None,
    }
}

/// The sum of the durations of the first `n` rows, saturating; rows without one count nothing.
pub open spec fn sum_samples(rows: Seq<SummaryRow>, n: nat) -> u64
    decreases n,
{
    if n == 0 {
        0
    } else {
        let before = sum_samples(rows, (n - 1) as nat);
        match rows[n - 1].duration_samples {
            Some(d) => if before + d > u64::MAX {
                u64::MAX
            } else {
                (before + d) as u64
            },
            None => before,
        }
    }
}

/// The number of rows among the first `n` that are marked as discontinuities.
pub open spec fn count_discontinuities(rows: Seq<SummaryRow>, n: nat) -> nat
    decreases n,
{
    if n == 0 {
        0
    } else {
        count_discontinuities(rows, (n - 1) as nat) + (if rows[n - 1].discontinuity == Some(true) {
            1nat
        } else {
            0
        })
    }
}

/// The number of rows among the first `n` that play before the row that precedes them.
pub open spec fn count_out_of_order(rows: Seq<SummaryRow>, n: nat) -> nat
    decreases n,
{
    if n <= 1 {
        0
    } else {
        count_out_of_order(rows, (n - 1) as nat) + (if rows[n - 1].time < rows[n - 2].time {
            1nat
        } else {
            0
        })
    }
}

/// The last sequence number among the first `n` rows.
pub open spec fn last_sequence(rows: Seq<SummaryRow>, n: nat) -> Option<u64>
    decreases n,
{
    if n == 0 {
        None
    } else {
        match rows[n - 1].sequence_number {
            Some(s) => Some(s),
            None => last_sequence(rows, (n - 1) as nat),
        }
    }
}

/// Whether `next` does not follow `previous` by one. Nothing follows the largest number.
pub open spec fn is_gap(previous: u64, next: u64) -> bool {
    next != previous + 1
}

/// The number of sequence numbers among the first `n` rows that do not follow the one before.
pub open spec fn count_gaps(rows: Seq<SummaryRow>, n: nat) -> nat
    decreases n,
{
    if n == 0 {
        0
    } else {
        let before = count_gaps(rows, (n - 1) as nat);
        match (rows[n - 1].sequence_number, last_sequence(rows, (n - 1) as nat)) {
            (Some(s), Some(p)) => if is_gap(p, s) {
                before + 1
            } else {
                before
            },
            _ => before,
        }
    }
}

/// Whether one of the first `n` rows has no duration.
pub open spec fn duration_missing(rows: Seq<SummaryRow>, n: nat) -> bool {
    exists|i: int| 0 <= i < n && (#[trigger] rows[i]).duration_samples is None
}

/// Sums up the rows of a stream.
pub fn build_summary(
    entity_path: String,
    config: Option<AudioStreamConfig>,
    rows: &Vec<SummaryRow>,
) -> (r: AudioStreamSummary)
    ensures
        r.entity_path == entity_path,
        r.config == config,
        r.segment_count == rows@.len(),
        r.total_samples == (if duration_missing(rows@, rows@.len()) {
            None
        } else {
            Some(sum_samples(rows@, rows@.len()))
        }),
        r.out_of_order == count_out_of_order(rows@, rows@.len()),
        r.discontinuities == count_discontinuities(rows@, rows@.len()),
        match r.sequence_gaps {
            Some(gaps) => last_sequence(rows@, rows@.len()) is Some && gaps == count_gaps(
                rows@,
                rows@.len(),
            ),
            None => last_sequence(rows@, rows@.len()) is None,
        },
        r.pts_range == (if rows@.len() == 0 {
            None
        } else {
            Some((rows@[0].time, rows@.last().time))
        }),
{
    let mut total_samples: u64 = 0;
    let mut any_duration_missing: bool = false;
    let mut discontinuities: usize = 0;
    let mut out_of_order: usize = 0;
    let mut sequence_gaps: usize = 0;
    let mut last_seen: Option<u64> = None;
    let mut i: usize = 0;
    while i < rows.len()
        invariant
            i <= rows@.len(),
            total_samples == sum_samples(rows@, i as nat),
            any_duration_missing == duration_missing(rows@, i as nat),
            discontinuities == count_discontinuities(rows@, i as nat),
            discontinuities <= i,
            out_of_order == count_out_of_order(rows@, i as nat),
            out_of_order <= i,
            last_seen == last_sequence(rows@, i as nat),
            sequence_gaps == count_gaps(rows@, i as nat),
            sequence_gaps <= i,
        decreases rows@.len() - i,
    {
        let row = rows[i];
        match row.duration_samples {
            Some(duration) => {
                total_samples = total_samples.saturating_add(duration);
            },
            None => {
                assert(rows@[i as int].duration_samples is None);
                any_duration_missing = true;
            },
        }
        if let Some(true) = row.discontinuity {
            discontinuities = discontinuities + 1;
        }
        match row.sequence_number {
            Some(sequence) => {
                match last_seen {
                    Some(previous) => {
                        if previous == u64::MAX || sequence != previous + 1 {
                            sequence_gaps = sequence_gaps + 1;
                        }
                    },
                    None => {},
                }
                last_seen = Some(sequence);
            },
            None => {},
        }
        if i > 0 && row.time < rows[i - 1].time {
            out_of_order = out_of_order + 1;
        }
        i = i + 1;
    }
    let pts_range = if rows.len() == 0 {
        None
    } else {
        Some((rows[0].time, rows[rows.len() - 1].time))
    };
    AudioStreamSummary {
        entity_path,
        config,
        segment_count: rows.len(),
        total_samples: if any_duration_missing {
            None
        } else {
            Some(total_samples)
        },
        out_of_order,
        discontinuities,
        sequence_gaps: if last_seen.is_some() {
            Some(sequence_gaps)
        } else {
            None
        },
        pts_range,
    }
}

/// Rows that play in order and are numbered without a break show no fault.
pub proof fn contiguous_rows_show_no_fault(rows: Seq<SummaryRow>, n: nat)
    requires
        n <= rows.len(),
        forall|i: int| 0 <= i < rows.len() ==> (#[trigger] rows[i]).sequence_number is Some,
        forall|i: int|
            0 < i < rows.len() ==> !is_gap(
                rows[i - 1].sequence_number->0,
                (#[trigger] rows[i]).sequence_number->0,
            ) && rows[i - 1].time <= rows[i].time,
    ensures
        count_gaps(rows, n) == 0,
        count_out_of_order(rows, n) == 0,
    decreases n,
{
    if n > 0 {
        contiguous_rows_show_no_fault(rows, (n - 1) as nat);
        assert(rows[n - 1].sequence_number is Some);
        if n > 1 {
            assert(rows[n - 2].sequence_number is Some);
        }
    }
}

/// The sum of the rows' own durations.
pub open spec fn durations(rows: Seq<SummaryRow>) -> int {
    rows.fold_left(0int, |n: int, r: SummaryRow| n + r.duration_samples->0)
}

proof fn lemma_sum_samples(rows: Seq<SummaryRow>, n: nat)
    requires
        n <= rows.len(),
        forall|i: int| 0 <= i < n ==> (#[trigger] rows[i]).duration_samples is Some,
    ensures
        0 <= durations(rows.take(n as int)),
        sum_samples(rows, n) == (if durations(rows.take(n as int)) <= u64::MAX {
            durations(rows.take(n as int))
        } else {
            u64::MAX as int
        }),
    decreases n,
{
    if n > 0 {
        lemma_sum_samples(rows, (n - 1) as nat);
        assert(rows.take(n as int).drop_last() =~= rows.take(n - 1));
        assert(rows[n - 1].duration_samples is Some);
    }
}

/// The total of rows that all have a duration is the sum of their own durations, as far as it can
/// be counted.
pub proof fn total_is_the_sum_of_all_durations(rows: Seq<SummaryRow>)
    requires
        forall|i: int| 0 <= i < rows.len() ==> (#[trigger] rows[i]).duration_samples is Some,
    ensures
        !duration_missing(rows, rows.len()),
        sum_samples(rows, rows.len()) == (if durations(rows) <= u64::MAX {
            durations(rows)
        } else {
            u64::MAX as int
        }),
{
    lemma_sum_samples(rows, rows.len());
    assert(rows.take(rows.len() as int) =~= rows);
}

/// A further row adds its own duration to the total.
pub proof fn a_row_adds_its_duration(rows: Seq<SummaryRow>, row: SummaryRow)
    requires
        forall|i: int| 0 <= i < rows.len() ==> (#[trigger] rows[i]).duration_samples is Some,
        row.duration_samples is Some,
        sum_samples(rows, rows.len()) + row.duration_samples->0 <= u64::MAX,
    ensures
        sum_samples(rows.push(row), rows.len() + 1) == sum_samples(rows, rows.len())
            + row.duration_samples->0,
{
    let more = rows.push(row);
    assert forall|i: int| 0 <= i < more.len() implies (#[trigger] more[i]).duration_samples
        is Some by {
        if i < rows.len() {
            assert(more[i] == rows[i]);
        }
    }
    total_is_the_sum_of_all_durations(rows);
    total_is_the_sum_of_all_durations(more);
    assert(more.drop_last() =~= rows);
}

/// Where a row has no duration, there is no total, whatever the others say.
pub proof fn a_row_without_duration_leaves_the_total_open(rows: Seq<SummaryRow>, i: int)
    requires
        0 <= i < rows.len(),
        rows[i].duration_samples is None,
    ensures
        duration_missing(rows, rows.len()),
{
}

proof fn lemma_discontinuities(rows: Seq<SummaryRow>, n: nat)
    requires
        n <= rows.len(),
    ensures
        count_discontinuities(rows, n) == rows.take(n as int).filter(
            |r: SummaryRow| r.discontinuity == Some(true),
        ).len(),
    decreases n,
{
    reveal(Seq::filter);
    if n > 0 {
        lemma_discontinuities(rows, (n - 1) as nat);
        assert(rows.take(n as int).drop_last() =~= rows.take(n - 1));
    }
}

/// As many discontinuities are counted as there are rows that say that they are one.
pub proof fn discontinuities_are_counted(rows: Seq<SummaryRow>)
    ensures
        count_discontinuities(rows, rows.len()) == rows.filter(
            |r: SummaryRow| r.discontinuity == Some(true),
        ).len(),
{
    lemma_discontinuities(rows, rows.len());
    assert(rows.take(rows.len() as int) =~= rows);
}

/// The rows that play before the row which precedes them, by position.
pub open spec fn early_rows(rows: Seq<SummaryRow>) -> Set<int> {
    Set::new(|i: int| 0 < i < rows.len() && rows[i].time < rows[i - 1].time)
}

proof fn lemma_early_rows(rows: Seq<SummaryRow>, n: nat)
    requires
        n <= rows.len(),
    ensures
        early_rows(rows.take(n as int)).finite(),
        count_out_of_order(rows, n) == early_rows(rows.take(n as int)).len(),
    decreases n,
{
    let now = early_rows(rows.take(n as int));
    if n <= 1 {
        assert(now =~= Set::<int>::empty());
    } else {
        lemma_early_rows(rows, (n - 1) as nat);
        let before = early_rows(rows.take(n - 1));
        if rows[n - 1].time < rows[n - 2].time {
            assert(now =~= before.insert(n - 1));
        } else {
            assert(now =~= before);
        }
    }
}

/// As many rows are counted as out of order as play before the row that precedes them.
pub proof fn early_rows_are_counted(rows: Seq<SummaryRow>)
    ensures
        early_rows(rows).finite(),
        count_out_of_order(rows, rows.len()) == early_rows(rows).len(),
{
    lemma_early_rows(rows, rows.len());
    assert(rows.take(rows.len() as int) =~= rows);
}

/// The sequence numbers that rows carry, in order.
pub open spec fn numbers(rows: Seq<SummaryRow>) -> Seq<u64> {
    rows.filter(|r: SummaryRow| r.sequence_number is Some).map_values(
        |r: SummaryRow| r.sequence_number->0,
    )
}

/// The places at which a number is not one more than the number before it.
pub open spec fn jumps(list: Seq<u64>) -> Set<int> {
    Set::new(|i: int| 0 < i < list.len() && list[i] != list[i - 1] + 1)
}

proof fn lemma_jumps(rows: Seq<SummaryRow>, n: nat)
    requires
        n <= rows.len(),
    ensures
        ({
            let list = numbers(rows.take(n as int));
            &&& jumps(list).finite()
            &&& count_gaps(rows, n) == jumps(list).len()
            &&& last_sequence(rows, n) == (if list.len() == 0 {
                None
            } else {
                Some(list.last())
            })
        }),
    decreases n,
{
    reveal(Seq::filter);
    let list = numbers(rows.take(n as int));
    if n == 0 {
        assert(jumps(list) =~= Set::<int>::empty());
    } else {
        lemma_jumps(rows, (n - 1) as nat);
        assert(rows.take(n as int).drop_last() =~= rows.take(n - 1));
        let before = numbers(rows.take(n - 1));
        match rows[n - 1].sequence_number {
            None => {
                assert(list =~= before);
            },
            Some(s) => {
                assert(list =~= before.push(s));
                if before.len() > 0 && s != before.last() + 1 {
                    assert(jumps(list) =~= jumps(before).insert(before.len() as int));
                } else {
                    assert(jumps(list) =~= jumps(before));
                }
            },
        }
    }
}

/// As many gaps are counted as there are numbers that are not one more than the number before
/// them, whatever rows without a number stand between; and there is a count exactly when there
/// is a number.
pub proof fn gaps_are_jumps_between_numbers(rows: Seq<SummaryRow>)
    ensures
        jumps(numbers(rows)).finite(),
        count_gaps(rows, rows.len()) == jumps(numbers(rows)).len(),
        last_sequence(rows, rows.len()) is Some <==> numbers(rows).len() > 0,
{
    lemma_jumps(rows, rows.len());
    assert(rows.take(rows.len() as int) =~= rows);
}

/// A summary tells the number of rows, the sum of their own durations where all have one, how
/// many rows play before the row before them, how many say that they are a discontinuity, how many
/// numbers are not one more than the number before them, and the times of the first and the last
/// row.
pub proof fn summaries_tell_what_the_rows_say(
    entity_path: String,
    config: Option<AudioStreamConfig>,
    rows: &Vec<SummaryRow>,
    r: AudioStreamSummary,
)
    requires
        call_ensures(build_summary, (entity_path, config, rows), r),
    ensures
        r.entity_path == entity_path,
        r.config == config,
        r.segment_count == rows@.len(),
        (forall|i: int| 0 <= i < rows@.len() ==> (#[trigger] rows@[i]).duration_samples is Some)
            ==> r.total_samples is Some && (durations(rows@) <= u64::MAX ==> r.total_samples->0
            == durations(rows@)) && (durations(rows@) > u64::MAX ==> r.total_samples->0
            == u64::MAX),
        forall|i: int|
            0 <= i < rows@.len() && (#[trigger] rows@[i]).duration_samples is None
                ==> r.total_samples is None,
        r.out_of_order == early_rows(rows@).len(),
        r.discontinuities == rows@.filter(
            |row: SummaryRow| row.discontinuity == Some(true),
        ).len(),
        r.sequence_gaps is Some <==> numbers(rows@).len() > 0,
        r.sequence_gaps matches Some(gaps) ==> gaps == jumps(numbers(rows@)).len(),
        rows@.len() == 0 ==> r.pts_range is None,
        rows@.len() > 0 ==> r.pts_range == Some((rows@[0].time, rows@[rows@.len() - 1].time)),
{
    if forall|i: int| 0 <= i < rows@.len() ==> (#[trigger] rows@[i]).duration_samples is Some {
        total_is_the_sum_of_all_durations(rows@);
    }
    assert forall|i: int|
        0 <= i < rows@.len() && (#[trigger] rows@[i]).duration_samples
            is None implies r.total_samples is None by {
        a_row_without_duration_leaves_the_total_open(rows@, i);
    }
    early_rows_are_counted(rows@);
    discontinuities_are_counted(rows@);
    gaps_are_jumps_between_numbers(rows@);
}

} // verus!
