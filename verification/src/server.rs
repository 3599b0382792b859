//! Settings and background work of the corpus server.

use crate::arith::{
    clamp_i64, saturating_add_i64, saturating_mul_i64, saturating_sub_i64,
};
use crate::chunk::Chunk;
use crate::corpus::config::CorpusConfig;
use crate::manifest::ManifestView;
use crate::store::chunk_provider::ChunkProvider;
use crate::store::laws::eviction_keeps_what_meets_the_window;
use crate::store::lazy::{kept_in_window, EvictionStats, LazyChunkStore};
use crate::store::timeline_index::chunk_span;
use crate::text::{trim_leading, without_leading};
use crate::text_laws::leading_runs_are_dropped;
use crate::time::AbsoluteTimeRange;
use std::sync::Arc;
use vstd::prelude::*;

verus! {

/// Settings as they are given on the command line or in the environment.
#[derive(Debug)]
pub struct Cli {
    /// Address to listen on.
    pub host: String,
    pub port: u16,
    /// Name of the dataset in the catalog.
    pub dataset_name: String,
    pub application_id: String,
    pub recording_id: String,
    /// Location of the index table; told from bucket and key where it is not given.
    pub lance_uri: Option<String>,
    pub s3_bucket: String,
    /// Key of the index table in the bucket.
    pub lance_key: String,
    pub s3_endpoint: String,
    pub s3_region: String,
    pub s3_access_key: String,
    pub s3_secret_key: String,
    pub s3_force_path_style: bool,
    pub max_initial_rows: Option<usize>,
    /// Seconds between polls for new rows; zero for none.
    pub poll_interval_seconds: u64,
    /// Seconds between rounds of eviction; zero for none.
    pub eviction_interval_seconds: u64,
    /// Seconds to keep loaded before what is visible.
    pub retention_before_seconds: u64,
    /// Seconds to keep loaded after what is visible.
    pub retention_after_seconds: u64,
    /// Timeline that retention is measured on.
    pub retention_timeline: String,
}

/// What the server is run with.
#[derive(Debug)]
pub struct ServerOpts {
    pub host: String,
    pub port: u16,
    pub dataset_name: String,
    pub poll_interval_seconds: u64,
    pub eviction: EvictionOpts,
}

/// How loaded chunks are evicted.
#[derive(Debug)]
pub struct EvictionOpts {
    pub interval_seconds: u64,
    pub retention_before_seconds: u64,
    pub retention_after_seconds: u64,
    pub timeline: String,
}

/// The bucket that is used where none is given.
pub const DEFAULT_BUCKET: &'static str = "nereid-audio";

/// The bucket of the corpus: the one set for the server, or else the one set for the corpus, or
/// else the default.
pub fn resolve_bucket(server: Option<String>, corpus: Option<String>) -> (r: String)
    ensures
        match (server, corpus) {
            (Some(bucket), _) => r == bucket,
            (None, Some(bucket)) => r == bucket,
            (None, None) => r@ == DEFAULT_BUCKET@,
        },
{
    match server {
        Some(bucket) => bucket,
        None => match corpus {
            Some(bucket) => bucket,
            None => DEFAULT_BUCKET.to_owned(),
        },
    }
}

impl Cli {
    /// Where the index table is.
    pub open spec fn table_uri(&self) -> Seq<char> {
        match self.lance_uri {
            Some(uri) => uri@,
            None => "s3://"@ + self.s3_bucket@ + "/"@ + without_leading(self.lance_key@, '/'),
        }
    }

    /// Divides the settings into those of the corpus and those of the server.
    pub fn split(self) -> (r: (CorpusConfig, ServerOpts))
        ensures
            r.0.lance_table_uri@ == self.table_uri(),
            r.0.s3_endpoint == self.s3_endpoint,
            r.0.s3_region == self.s3_region,
            r.0.s3_access_key == self.s3_access_key,
            r.0.s3_secret_key == self.s3_secret_key,
            r.0.s3_force_path_style == self.s3_force_path_style,
            r.0.application_id == self.application_id,
            r.0.recording_id == self.recording_id,
            r.0.max_initial_rows == self.max_initial_rows,
            r.1 == (ServerOpts {
                host: self.host,
                port: self.port,
                dataset_name: self.dataset_name,
                poll_interval_seconds: self.poll_interval_seconds,
                eviction: EvictionOpts {
                    interval_seconds: self.eviction_interval_seconds,
                    retention_before_seconds: self.retention_before_seconds,
                    retention_after_seconds: self.retention_after_seconds,
                    timeline: self.retention_timeline,
                },
            }),
    {
        let opts = ServerOpts {
            host: self.host,
            port: self.port,
            dataset_name: self.dataset_name,
            poll_interval_seconds: self.poll_interval_seconds,
            eviction: EvictionOpts {
                interval_seconds: self.eviction_interval_seconds,
                retention_before_seconds: self.retention_before_seconds,
                retention_after_seconds: self.retention_after_seconds,
                timeline: self.retention_timeline,
            },
        };
        let lance_table_uri = match self.lance_uri {
            Some(uri) => uri,
            None => {
                let mut uri = "s3://".to_owned();
                uri.append(self.s3_bucket.as_str());
                uri.append("/");
                uri.append(trim_leading(self.lance_key.as_str(), '/').as_str());
                uri
            },
        };
        let config = CorpusConfig {
            lance_table_uri,
            s3_endpoint: self.s3_endpoint,
            s3_region: self.s3_region,
            s3_access_key: self.s3_access_key,
            s3_secret_key: self.s3_secret_key,
            s3_force_path_style: self.s3_force_path_style,
            application_id: self.application_id,
            recording_id: self.recording_id,
            max_initial_rows: self.max_initial_rows,
        };
        (config, opts)
    }
}

/// How often to poll for new rows, in seconds, or `None` where polling is disabled.
pub fn poll_interval(interval_seconds: u64) -> (r: Option<u64>)
    ensures
        r == (if interval_seconds == 0 {
            None
        } else {
            Some(interval_seconds)
        }),
{
    if interval_seconds == 0 {
        None
    } else {
        Some(interval_seconds)
    }
}

/// Whether and how loaded chunks are evicted.
#[derive(Debug, Clone, Copy, PartialEq, Eq, Structural)]
pub enum EvictionPlan {
    /// The interval is zero.
    DisabledByInterval,
    /// Nothing would be kept, so that every round would drop every chunk.
    DisabledByRetention,
    /// Evict what lies outside of what is visible and this much around it, in nanoseconds.
    Run { interval_seconds: u64, before_ns: i64, after_ns: i64 },
}

/// Seconds as nanoseconds, saturating.
pub open spec fn seconds_ns(seconds: u64) -> i64 {
    clamp_i64(clamp_i64(seconds as int) * 1_000_000_000)
}

fn seconds_to_ns(seconds: u64) -> (ns: i64)
    ensures
        ns == seconds_ns(seconds),
{
    let seconds: i64 = if seconds > i64::MAX as u64 {
        i64::MAX
    } else {
        seconds as i64
    };
    saturating_mul_i64(seconds, 1_000_000_000)
}

/// Plans the eviction of loaded chunks.
pub fn eviction_plan(opts: &EvictionOpts) -> (plan: EvictionPlan)
    ensures
        plan == (if opts.interval_seconds == 0 {
            EvictionPlan::DisabledByInterval
        } else if opts.retention_before_seconds == 0 && opts.retention_after_seconds == 0 {
            EvictionPlan::DisabledByRetention
        } else {
            EvictionPlan::Run {
                interval_seconds: opts.interval_seconds,
                before_ns: seconds_ns(opts.retention_before_seconds),
                after_ns: seconds_ns(opts.retention_after_seconds),
            }
        }),
{
    if opts.interval_seconds == 0 {
        return EvictionPlan::DisabledByInterval;
    }
    if opts.retention_before_seconds == 0 && opts.retention_after_seconds == 0 {
        return EvictionPlan::DisabledByRetention;
    }
    EvictionPlan::Run {
        interval_seconds: opts.interval_seconds,
        before_ns: seconds_to_ns(opts.retention_before_seconds),
        after_ns: seconds_to_ns(opts.retention_after_seconds),
    }
}

/// What is kept loaded: what is visible, and some time before and after it.
pub open spec fn kept_window(
    cursor: AbsoluteTimeRange,
    before_ns: i64,
    after_ns: i64,
) -> AbsoluteTimeRange {
    AbsoluteTimeRange {
        min: clamp_i64(cursor.min - before_ns),
        max: clamp_i64(cursor.max + after_ns),
    }
}

/// The time range to keep loaded around what is visible.
pub fn keep_window(cursor: AbsoluteTimeRange, before_ns: i64, after_ns: i64) -> (r:
    AbsoluteTimeRange)
    ensures
        r == kept_window(cursor, before_ns, after_ns),
{
    AbsoluteTimeRange::new(
        saturating_sub_i64(cursor.min, before_ns),
        saturating_add_i64(cursor.max, after_ns),
    )
}

/// One round of eviction: drops the loaded chunks outside of what is visible on `timeline` and
/// some time around it. Nothing happens before a visible range has been observed.
pub fn evict_cycle<P: ChunkProvider>(
    store: &mut LazyChunkStore<P>,
    timeline: &str,
    before_ns: i64,
    after_ns: i64,
) -> (r: Option<(AbsoluteTimeRange, EvictionStats)>)
    requires
        old(store).wf(),
    ensures
        final(store).wf(),
        final(store).source() == old(store).source(),
        final(store).name() == old(store).name(),
        final(store).listing() == old(store).listing(),
        final(store).raw_listing() == old(store).raw_listing(),
        final(store).cursors() == old(store).cursors(),
        match r {
            Some((cursor, stats)) => {
                &&& old(store).cursors().contains_key(timeline@)
                &&& cursor == old(store).cursors()[timeline@]
                &&& final(store).loaded() == kept_in_window(
                    old(store).loaded(),
                    old(store).listing(),
                    timeline@,
                    kept_window(cursor, before_ns, after_ns),
                )
                &&& stats.retained == final(store).loaded().len()
                &&& stats.evicted == old(store).loaded().len() - final(store).loaded().len()
            },
            None => !old(store).cursors().contains_key(timeline@) && final(store).loaded()
                == old(store).loaded(),
        },
{
    match store.cursor(timeline) {
        Some(cursor) => {
            let keep = keep_window(cursor, before_ns, after_ns);
            let stats = store.evict_outside_window(timeline, keep);
            Some((cursor, stats))
        },
        None => None,
    }
}

/// A chunk that reaches into what is visible is never outside of what is kept.
pub proof fn visible_chunks_stay(
    range: AbsoluteTimeRange,
    cursor: AbsoluteTimeRange,
    before_ns: i64,
    after_ns: i64,
)
    requires
        before_ns >= 0,
        after_ns >= 0,
        !range.apart(cursor),
    ensures
        !range.apart(kept_window(cursor, before_ns, after_ns)),
{
}

/// A chunk is outside of what is kept exactly when it ends earlier than the retention before, or
/// starts later than the retention after, what is visible.
pub proof fn retention_is_measured_from_the_cursor(
    range: AbsoluteTimeRange,
    cursor: AbsoluteTimeRange,
    before_ns: i64,
    after_ns: i64,
)
    requires
        before_ns >= 0,
        after_ns >= 0,
    ensures
        range.apart(kept_window(cursor, before_ns, after_ns)) <==> range.max < cursor.min
            - before_ns || range.min > cursor.max + after_ns,
{
}

/// Planned retentions are never negative.
pub proof fn retention_is_not_negative(seconds: u64)
    ensures
        seconds_ns(seconds) >= 0,
{
}

/// A loaded chunk of which a part is visible, or lies within the retention before or after what
/// is visible, is never evicted by a round of eviction; and one that ends earlier than the
/// retention before or begins later than the retention after always is.
pub proof fn rounds_of_eviction_keep_what_is_near(
    loaded: Seq<(u128, Arc<Chunk>)>,
    manifest: ManifestView,
    timeline: Seq<char>,
    cursor: AbsoluteTimeRange,
    before_ns: i64,
    after_ns: i64,
    i: int,
)
    requires
        0 <= i < loaded.len(),
        before_ns >= 0,
        after_ns >= 0,
    ensures
        kept_in_window(
            loaded,
            manifest,
            timeline,
            kept_window(cursor, before_ns, after_ns),
        ).contains(loaded[i]) <==> (match chunk_span(
            manifest.ranges,
            loaded[i].0,
            timeline,
            manifest.ranges.len(),
        ) {
            None => true,
            Some(span) => span.max >= cursor.min - before_ns && span.min <= cursor.max + after_ns,
        }),
{
    eviction_keeps_what_meets_the_window(
        loaded,
        manifest,
        timeline,
        kept_window(cursor, before_ns, after_ns),
        i,
    );
}

/// Eviction runs only where it is given an interval and something to keep. Retentions are then
/// as many nanoseconds as their seconds make, as far as that can be told.
pub proof fn eviction_is_planned_by_its_settings(opts: &EvictionOpts, plan: EvictionPlan)
    requires
        call_ensures(eviction_plan, (opts,), plan),
    ensures
        plan is Run <==> opts.interval_seconds > 0 && (opts.retention_before_seconds > 0
            || opts.retention_after_seconds > 0),
        plan matches EvictionPlan::Run { interval_seconds, before_ns, after_ns } ==> {
            &&& interval_seconds == opts.interval_seconds
            &&& before_ns >= 0
            &&& after_ns >= 0
            &&& opts.retention_before_seconds * 1_000_000_000 <= i64::MAX ==> before_ns
                == opts.retention_before_seconds * 1_000_000_000
            &&& opts.retention_before_seconds * 1_000_000_000 > i64::MAX ==> before_ns == i64::MAX
            &&& opts.retention_after_seconds * 1_000_000_000 <= i64::MAX ==> after_ns
                == opts.retention_after_seconds * 1_000_000_000
            &&& opts.retention_after_seconds * 1_000_000_000 > i64::MAX ==> after_ns == i64::MAX
        },
{
}

/// A round of eviction does nothing before a visible range has been observed on the timeline.
/// Afterwards it keeps, in order, exactly the loaded chunks of which the manifest tells no time
/// there or a time no earlier than the retention before and no later than the retention after
/// what is visible.
pub proof fn rounds_of_eviction_keep_exactly_what_is_near<P: ChunkProvider>()
    ensures
        forall|
            store: &mut LazyChunkStore<P>,
            timeline: &str,
            before_ns: i64,
            after_ns: i64,
            r: Option<(AbsoluteTimeRange, EvictionStats)>,
            i: int,
        |
            #![trigger
                call_ensures(evict_cycle::<P>, (store, timeline, before_ns, after_ns), r),
                store.loaded()[i]
            ]
            call_ensures(evict_cycle::<P>, (store, timeline, before_ns, after_ns), r) && before_ns
                >= 0 && after_ns >= 0 && 0 <= i < store.loaded().len() ==> {
                let known = store.cursors().contains_key(timeline@);
                let cursor = store.cursors()[timeline@];
                &&& r is Some <==> known
                &&& !known ==> final(store).loaded() == store.loaded()
                &&& known ==> (final(store).loaded().contains(store.loaded()[i]) <==> (
                match chunk_span(
                    store.listing().ranges,
                    store.loaded()[i].0,
                    timeline@,
                    store.listing().ranges.len(),
                ) {
                    None => true,
                    Some(span) => span.max >= cursor.min - before_ns && span.min <= cursor.max
                        + after_ns,
                }))
                &&& final(store).listing() == store.listing()
                &&& r matches Some((seen, stats)) ==> seen == cursor && stats.retained
                    == final(store).loaded().len() && stats.evicted + stats.retained
                    == store.loaded().len()
            },
{
    assert forall|
        store: &mut LazyChunkStore<P>,
        timeline: &str,
        before_ns: i64,
        after_ns: i64,
        r: Option<(AbsoluteTimeRange, EvictionStats)>,
        i: int,
    |
        #![trigger
            call_ensures(evict_cycle::<P>, (store, timeline, before_ns, after_ns), r),
            store.loaded()[i]
        ]
        call_ensures(evict_cycle::<P>, (store, timeline, before_ns, after_ns), r) && before_ns >= 0
            && after_ns >= 0 && 0 <= i < store.loaded().len() implies {
        let known = store.cursors().contains_key(timeline@);
        let cursor = store.cursors()[timeline@];
        &&& r is Some <==> known
        &&& !known ==> final(store).loaded() == store.loaded()
        &&& known ==> (final(store).loaded().contains(store.loaded()[i]) <==> (match chunk_span(
            store.listing().ranges,
            store.loaded()[i].0,
            timeline@,
            store.listing().ranges.len(),
        ) {
            None => true,
            Some(span) => span.max >= cursor.min - before_ns && span.min <= cursor.max + after_ns,
        }))
        &&& final(store).listing() == store.listing()
        &&& r matches Some((seen, stats)) ==> seen == cursor && stats.retained
            == final(store).loaded().len() && stats.evicted + stats.retained
            == store.loaded().len()
    } by {
        rounds_of_eviction_keep_what_is_near(
            store.loaded(),
            store.listing(),
            timeline@,
            store.cursors()[timeline@],
            before_ns,
            after_ns,
            i,
        );
    }
}

/// The bucket that is set for the server counts before the one that is set for the corpus.
pub proof fn the_bucket_of_the_server_comes_first(
    server: Option<String>,
    corpus: Option<String>,
    r: String,
)
    requires
        call_ensures(resolve_bucket, (server, corpus), r),
    ensures
        server matches Some(bucket) ==> r == bucket,
        server is None && corpus is Some ==> r == corpus->0,
        server is None && corpus is None ==> r@ == "nereid-audio"@,
{
}

/// The location of the table is the one that is given; otherwise it is made of bucket and key,
/// and slashes at the start of the key make no difference.
pub proof fn tables_are_where_bucket_and_key_say(
    cli: Cli,
    r: (CorpusConfig, ServerOpts),
    skipped: int,
)
    requires
        call_ensures(Cli::split, (cli,), r),
        0 <= skipped <= cli.lance_key@.len(),
        forall|i: int| 0 <= i < skipped ==> cli.lance_key@[i] == '/',
        skipped < cli.lance_key@.len() ==> cli.lance_key@[skipped] != '/',
    ensures
        cli.lance_uri matches Some(uri) ==> r.0.lance_table_uri@ == uri@,
        cli.lance_uri is None ==> r.0.lance_table_uri@ == "s3://"@ + cli.s3_bucket@ + "/"@
            + cli.lance_key@.skip(skipped),
{
    leading_runs_are_dropped(cli.lance_key@, '/');
    let rest = without_leading(cli.lance_key@, '/');
    let dropped = cli.lance_key@.len() - rest.len();
    if dropped < skipped {
        assert(rest[0] == cli.lance_key@[dropped]);
    } else if dropped > skipped {
        assert(cli.lance_key@[skipped] == '/');
    }
}

} // verus!
