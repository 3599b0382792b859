//! Settings of the server, and table entries.

use nereid::catalog::{
    accept_reply, finish_search, ProviderDetails, PyTableEntryInternal,
    PyTableInsertModeInternal, SearchReply, TableInsertMode, VectorDistanceMetric,
};
use nereid::server::{
    eviction_plan, poll_interval, resolve_bucket, Cli, EvictionOpts, EvictionPlan,
};

fn cli() -> Cli {
    Cli {
        host: "0.0.0.0".into(),
        port: 51234,
        dataset_name: "corpus".into(),
        application_id: "nereid".into(),
        recording_id: "corpus".into(),
        lance_uri: None,
        s3_bucket: "nereid-audio".into(),
        lance_key: "index/corpus.lance".into(),
        s3_endpoint: String::new(),
        s3_region: "us-east-1".into(),
        s3_access_key: String::new(),
        s3_secret_key: String::new(),
        s3_force_path_style: true,
        max_initial_rows: Some(10),
        poll_interval_seconds: 30,
        eviction_interval_seconds: 60,
        retention_before_seconds: 600,
        retention_after_seconds: 61,
        retention_timeline: "capture_time".into(),
    }
}

#[test]
fn settings_are_divided() {
    let (config, opts) = cli().split();
    assert_eq!(config.lance_table_uri, "s3://nereid-audio/index/corpus.lance");
    assert_eq!(config.s3_region, "us-east-1");
    assert_eq!(config.application_id, "nereid");
    assert_eq!(config.recording_id, "corpus");
    assert_eq!(config.max_initial_rows, Some(10));
    assert!(config.s3_force_path_style);
    assert_eq!(opts.host, "0.0.0.0");
    assert_eq!(opts.port, 51234);
    assert_eq!(opts.dataset_name, "corpus");
    assert_eq!(opts.poll_interval_seconds, 30);
    assert_eq!(opts.eviction.interval_seconds, 60);
    assert_eq!(opts.eviction.retention_before_seconds, 600);
    assert_eq!(opts.eviction.retention_after_seconds, 61);
    assert_eq!(opts.eviction.timeline, "capture_time");
}

#[test]
fn the_table_location_is_given_or_told() {
    let mut c = cli();
    c.lance_key = "//a/b".into();
    assert_eq!(c.split().0.lance_table_uri, "s3://nereid-audio/a/b");
    let mut c = cli();
    c.lance_key = "/".into();
    assert_eq!(c.split().0.lance_table_uri, "s3://nereid-audio/");
    let mut c = cli();
    c.lance_uri = Some("file:///x".into());
    assert_eq!(c.split().0.lance_table_uri, "file:///x");
}

#[test]
fn buckets_are_resolved() {
    assert_eq!(resolve_bucket(Some("a".into()), Some("b".into())), "a");
    assert_eq!(resolve_bucket(None, Some("b".into())), "b");
    assert_eq!(resolve_bucket(None, None), "nereid-audio");
}

fn eviction(interval: u64, before: u64, after: u64) -> EvictionPlan {
    eviction_plan(&EvictionOpts {
        interval_seconds: interval,
        retention_before_seconds: before,
        retention_after_seconds: after,
        timeline: "t".into(),
    })
}

#[test]
fn background_work_can_be_disabled() {
    assert_eq!(poll_interval(0), None);
    assert_eq!(poll_interval(30), Some(30));
    assert_eq!(eviction(0, 1, 1), EvictionPlan::DisabledByInterval);
    assert_eq!(eviction(5, 0, 0), EvictionPlan::DisabledByRetention);
    assert_eq!(
        eviction(5, 2, 0),
        EvictionPlan::Run {
            interval_seconds: 5,
            before_ns: 2_000_000_000,
            after_ns: 0
        }
    );
    assert_eq!(
        eviction(5, u64::MAX, 10_000_000_000),
        EvictionPlan::Run {
            interval_seconds: 5,
            before_ns: i64::MAX,
            after_ns: i64::MAX
        }
    );
}

#[test]
fn insert_modes() {
    let cases = [
        (PyTableInsertModeInternal::Append, 1, TableInsertMode::Append),
        (PyTableInsertModeInternal::Overwrite, 2, TableInsertMode::Overwrite),
        (PyTableInsertModeInternal::Replace, 3, TableInsertMode::Replace),
    ];
    for (mode, value, wanted) in cases {
        assert_eq!(mode.value(), value);
        assert_eq!(TableInsertMode::from(mode), wanted);
    }
}

#[test]
fn table_entries_have_a_location() {
    let stored = PyTableEntryInternal::new(
        "t".into(),
        ProviderDetails::LanceTable { table_url: "s3://b/t".into() },
    );
    assert_eq!(stored.storage_url(), "s3://b/t");
    assert_eq!(stored.describe(), "TableEntry(url='s3://b/t')");
    let system = PyTableEntryInternal::new("t".into(), ProviderDetails::SystemTable);
    assert_eq!(system.storage_url(), "");
    assert_eq!(system.describe(), "TableEntry(url='')");
}

#[test]
fn vector_indexes_have_one_sub_vector() {
    let request =
        PyTableEntryInternal::vector_index_request("v".into(), VectorDistanceMetric::Cosine, true);
    assert_eq!(request.column, "v");
    assert_eq!(request.num_sub_vectors, Some(1));
    assert_eq!(request.target_partition_num_rows, None);
    assert_eq!(request.metric, VectorDistanceMetric::Cosine);
    assert!(request.replace);
}

#[test]
fn search_replies_are_collected() {
    let mut batches: Vec<u8> = Vec::new();
    assert!(accept_reply(&mut batches, SearchReply::Batch(1)).is_ok());
    assert!(accept_reply(&mut batches, SearchReply::Batch(2)).is_ok());
    assert_eq!(
        accept_reply(&mut batches, SearchReply::NoPayload).unwrap_err(),
        "missing record batch payload"
    );
    assert_eq!(
        accept_reply(&mut batches, SearchReply::Failed("down".into())).unwrap_err(),
        "down"
    );
    assert_eq!(
        accept_reply(&mut batches, SearchReply::Unreadable("bad".into())).unwrap_err(),
        "bad"
    );
    assert_eq!(finish_search(batches).unwrap(), vec![1, 2]);
    assert_eq!(
        finish_search(Vec::<u8>::new()).unwrap_err(),
        "empty vector search response"
    );
}
