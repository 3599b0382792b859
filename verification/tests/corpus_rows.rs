//! Rows of the corpus index: identifiers, paths, decoding and order.

use nereid::corpus::batch::{
    rows_from_record_batch, Column, ColumnValues, RecordBatch, StringColumn,
};
use nereid::corpus::digest::{derive_id, verify_sha256};
use nereid::corpus::error::CorpusError;
use nereid::corpus::order::{drop_repeats, order_rows};
use nereid::corpus::row::{slug, CorpusChunkRow};
use nereid::corpus::s3::{check_object, client_plan};
use nereid::corpus::scan::{initial_rows, projection, rows_of_scan, scan_plan};
use nereid::corpus::config::CorpusConfig;

fn row(id: &str, start: i64) -> CorpusChunkRow {
    CorpusChunkRow {
        chunk_id_str: id.into(),
        room: "r".into(),
        participant_identity: "p".into(),
        track_id: "t".into(),
        sequence_no: 0,
        chunk_start_ns: start,
        chunk_end_ns: start + 1,
        s3_bucket: "b".into(),
        s3_key: "k".into(),
        sha256: None,
        codec_audio: None,
    }
}

fn config() -> CorpusConfig {
    CorpusConfig {
        lance_table_uri: "s3://test/index.lance".into(),
        s3_endpoint: String::new(),
        s3_region: "us-east-1".into(),
        s3_access_key: String::new(),
        s3_secret_key: String::new(),
        s3_force_path_style: true,
        application_id: "test_app".into(),
        recording_id: "test_rec".into(),
        max_initial_rows: None,
    }
}

#[test]
fn chunk_id_is_stable_across_calls() {
    let a = derive_id("abc-123");
    let b = derive_id("abc-123");
    let c = derive_id("abc-124");
    assert_eq!(a, b);
    assert_ne!(a, c);
}

#[test]
fn entity_path_slugs_slashes() {
    let row = CorpusChunkRow {
        chunk_id_str: "x".into(),
        room: "room/with/slashes".into(),
        participant_identity: "p1".into(),
        track_id: "t1".into(),
        sequence_no: 0,
        chunk_start_ns: 0,
        chunk_end_ns: 0,
        s3_bucket: "b".into(),
        s3_key: "k".into(),
        sha256: None,
        codec_audio: None,
    };
    assert_eq!(
        row.entity_path().to_string(),
        "/corpus/room_with_slashes/p1/t1/audio"
    );
}

#[test]
fn identifiers_are_the_first_half_of_the_digest() {
    assert_eq!(derive_id("abc"), 0xba7816bf_8f01cfea_414140de_5dae2223);
    assert_eq!(derive_id(""), 0xe3b0c442_98fc1c14_9afbf4c8_996fb924);
    assert_eq!(row("abc", 0).chunk_id(), derive_id("abc"));
}

#[test]
fn missing_names_become_unknown() {
    assert_eq!(slug(""), "unknown");
    assert_eq!(slug("a/b"), "a_b");
    assert_eq!(slug("/"), "_");
    let mut r = row("x", 0);
    r.participant_identity = String::new();
    assert_eq!(r.entity_path(), "/corpus/r/unknown/t/audio");
    assert_eq!(r.static_entity_path(), r.entity_path());
}

#[test]
fn digests_are_checked() {
    let digest = "ba7816bf8f01cfea414140de5dae2223b00361a396177a9cb410ff61f20015ad";
    assert!(verify_sha256("b", "k", b"abc", digest).is_ok());
    match verify_sha256("b", "k", b"abd", digest) {
        Err(CorpusError::Sha256Mismatch { bucket, key, expected, actual }) => {
            assert_eq!((bucket.as_str(), key.as_str()), ("b", "k"));
            assert_eq!(expected, digest);
            assert_eq!(actual.len(), 64);
            assert_ne!(actual, digest);
        }
        other => panic!("unexpected: {other:?}"),
    }
    // Upper-case digits are not the same text.
    assert!(verify_sha256("b", "k", b"abc", &digest.to_uppercase()).is_err());
    assert!(check_object("b", "k", b"anything", &None).is_ok());
    assert!(check_object("b", "k", b"abc", &Some(digest.to_string())).is_ok());
    assert!(check_object("b", "k", b"", &Some(digest.to_string())).is_err());
}

fn text_column(name: &str, cells: &[Option<&str>]) -> Column {
    Column {
        name: name.into(),
        values: ColumnValues::Utf8(StringColumn {
            nulls: cells.iter().map(|c| c.is_none()).collect(),
            values: cells.iter().map(|c| c.unwrap_or("").to_string()).collect(),
        }),
    }
}

fn int_column(name: &str, cells: &[i64]) -> Column {
    Column {
        name: name.into(),
        values: ColumnValues::Int64(cells.to_vec()),
    }
}

fn batch() -> RecordBatch {
    RecordBatch {
        num_rows: 3,
        columns: vec![
            text_column("chunk_id", &[Some("a"), Some("b"), Some("c")]),
            text_column("room", &[Some("r1"), Some("r2"), Some("r3")]),
            text_column("participant_identity", &[Some("p1"), None, Some("p3")]),
            text_column("track_id", &[Some("t1"), Some("t2"), Some("t3")]),
            int_column("sequence_no", &[1, 2, 3]),
            int_column("chunk_start_ns", &[30, 20, 10]),
            int_column("chunk_end_ns", &[31, 21, 11]),
            text_column("s3_bucket", &[Some("bk"), Some(""), Some("bk")]),
            text_column("s3_key", &[Some("k1"), Some("k2"), Some("k3")]),
            text_column("sha256", &[Some("d1"), Some("d2"), None]),
            text_column("codec_audio", &[Some(""), Some("opus"), Some("opus")]),
        ],
    }
}

#[test]
fn published_rows_are_decoded() {
    let rows = rows_from_record_batch(&batch()).unwrap();
    assert_eq!(rows.len(), 2);
    assert_eq!(rows[0].chunk_id_str, "a");
    assert_eq!(rows[0].room, "r1");
    assert_eq!(rows[0].participant_identity, "p1");
    assert_eq!(rows[0].track_id, "t1");
    assert_eq!(rows[0].sequence_no, 1);
    assert_eq!(rows[0].chunk_start_ns, 30);
    assert_eq!(rows[0].chunk_end_ns, 31);
    assert_eq!(rows[0].s3_bucket, "bk");
    assert_eq!(rows[0].s3_key, "k1");
    assert_eq!(rows[0].sha256.as_deref(), Some("d1"));
    assert_eq!(rows[0].codec_audio, None);
    assert_eq!(rows[1].chunk_id_str, "c");
    assert_eq!(rows[1].sha256, None);
    assert_eq!(rows[1].codec_audio.as_deref(), Some("opus"));
}

#[test]
fn optional_columns_may_be_absent() {
    let mut b = batch();
    b.columns.truncate(9);
    let rows = rows_from_record_batch(&b).unwrap();
    assert_eq!(rows.len(), 2);
    assert_eq!(rows[0].sha256, None);
    assert_eq!(rows[0].codec_audio, None);
}

#[test]
fn every_required_column_is_required() {
    let names = [
        "chunk_id",
        "room",
        "participant_identity",
        "track_id",
        "sequence_no",
        "chunk_start_ns",
        "chunk_end_ns",
        "s3_bucket",
        "s3_key",
    ];
    for (i, name) in names.iter().enumerate() {
        let mut b = batch();
        b.columns.remove(i);
        match rows_from_record_batch(&b) {
            Err(CorpusError::MissingColumn(column)) => assert_eq!(column, *name),
            other => panic!("unexpected: {other:?}"),
        }
        let mut b = batch();
        b.columns[i].values = ColumnValues::Other;
        match rows_from_record_batch(&b) {
            Err(CorpusError::MissingColumn(column)) => assert_eq!(column, *name),
            other => panic!("unexpected: {other:?}"),
        }
    }
}

#[test]
fn a_null_identifier_is_an_error() {
    let mut b = batch();
    b.columns[0] = text_column("chunk_id", &[Some("a"), None, None]);
    match rows_from_record_batch(&b) {
        Err(CorpusError::NullCell { row, column }) => {
            assert_eq!(row, 1);
            assert_eq!(column, "chunk_id");
        }
        other => panic!("unexpected: {other:?}"),
    }
}

#[test]
fn rows_are_ordered_by_start_and_ties_keep_their_order() {
    let mut rows = vec![row("a", 5), row("b", 1), row("c", 5), row("d", 0), row("e", 1)];
    order_rows(&mut rows);
    let ids: Vec<&str> = rows.iter().map(|r| r.chunk_id_str.as_str()).collect();
    assert_eq!(ids, vec!["d", "b", "e", "a", "c"]);
}

#[test]
fn rows_with_the_same_identifier_collapse() {
    let rows = vec![row("a", 1), row("a", 2), row("b", 2), row("a", 3), row("a", 3)];
    let kept = drop_repeats(&rows);
    let found: Vec<(&str, i64)> = kept
        .iter()
        .map(|r| (r.chunk_id_str.as_str(), r.chunk_start_ns))
        .collect();
    assert_eq!(found, vec![("a", 1), ("b", 2)]);
    assert!(drop_repeats(&vec![]).is_empty());
}

#[test]
fn a_scan_collects_batches_in_time_order() {
    let rows = rows_of_scan(&vec![batch(), batch()]).unwrap();
    let starts: Vec<i64> = rows.iter().map(|r| r.chunk_start_ns).collect();
    assert_eq!(starts, vec![10, 10, 30, 30]);
    let mut bad = batch();
    bad.columns[0] = text_column("chunk_id", &[None, Some("b"), Some("c")]);
    assert!(matches!(
        rows_of_scan(&vec![batch(), bad]),
        Err(CorpusError::NullCell { row: 0, .. })
    ));
    assert!(rows_of_scan(&vec![]).unwrap().is_empty());
}

#[test]
fn the_first_scan_is_cut() {
    let rows = || vec![row("a", 5), row("b", 1), row("c", 5), row("d", 0)];
    let found = |cap: Option<usize>| -> Vec<String> {
        initial_rows(rows(), cap).into_iter().map(|r| r.chunk_id_str).collect()
    };
    assert_eq!(found(None), vec!["d", "b", "a", "c"]);
    assert_eq!(found(Some(9)), vec!["d", "b", "a", "c"]);
    assert_eq!(found(Some(3)), vec!["d", "b", "a"]);
    assert_eq!(found(Some(1)), vec!["d"]);
    assert!(found(Some(0)).is_empty());
}

#[test]
fn scans_are_planned() {
    assert_eq!(scan_plan(None).filter, None);
    assert_eq!(
        scan_plan(Some(-1_234_567_890)).filter.as_deref(),
        Some("chunk_start_ns > -1234567890")
    );
    assert_eq!(
        scan_plan(Some(i64::MIN)).filter,
        Some(format!("chunk_start_ns > {}", i64::MIN))
    );
    assert_eq!(scan_plan(Some(0)).filter.as_deref(), Some("chunk_start_ns > 0"));
    let names = projection();
    assert_eq!(names.len(), 13);
    assert_eq!(names[0], "chunk_id");
    assert_eq!(names[1], "session_id");
    assert_eq!(names[12], "codec_audio");
}

#[test]
fn storage_options_follow_the_settings() {
    let mut c = config();
    let options = c.lance_storage_options();
    let pairs: Vec<(&str, &str)> = options.iter().map(|o| (o.0.as_str(), o.1.as_str())).collect();
    assert_eq!(
        pairs,
        vec![
            ("aws_region", "us-east-1"),
            ("region", "us-east-1"),
            ("aws_virtual_hosted_style_request", "false"),
            ("virtual_hosted_style_request", "false"),
            ("aws_allow_http", "true"),
            ("allow_http", "true"),
        ]
    );
    c.s3_endpoint = "http://minio".into();
    c.s3_access_key = "SECRET-REDACTED".into();
    c.s3_secret_key = "SECRET-REDACTED".into();
    c.s3_force_path_style = false;
    let options = c.lance_storage_options();
    let names: Vec<&str> = options.iter().map(|o| o.0.as_str()).collect();
    assert_eq!(
        names,
        vec![
            "aws_endpoint",
            "endpoint",
            "AWS_ENDPOINT",
            "aws_region",
            "region",
            "aws_access_key_id",
            "access_key_id",
            "aws_secret_access_key",
            "secret_access_key",
        ]
    );
    let mut sorted = names.clone();
    sorted.sort();
    sorted.dedup();
    assert_eq!(sorted.len(), names.len());
}

#[test]
fn settings_are_validated_in_order() {
    assert!(config().validate().is_ok());
    let mut c = config();
    c.recording_id = String::new();
    assert!(matches!(c.validate(), Err(CorpusError::Config(m)) if m == "recording_id must not be empty"));
    c.application_id = String::new();
    assert!(matches!(c.validate(), Err(CorpusError::Config(m)) if m == "application_id must not be empty"));
    c.lance_table_uri = String::new();
    assert!(matches!(c.validate(), Err(CorpusError::Config(m)) if m == "lance_table_uri must not be empty"));
}

#[test]
fn clients_are_planned() {
    let mut c = config();
    let plan = client_plan(&c, "bucket");
    assert_eq!(plan.bucket, "bucket");
    assert_eq!(plan.endpoint, None);
    assert_eq!(plan.region.as_deref(), Some("us-east-1"));
    assert_eq!(plan.virtual_hosted_style, Some(false));
    assert_eq!(plan.allow_http, Some(true));
    c.s3_endpoint = "http://minio".into();
    c.s3_force_path_style = false;
    let plan = client_plan(&c, "bucket");
    assert_eq!(plan.endpoint.as_deref(), Some("http://minio"));
    assert_eq!(plan.virtual_hosted_style, None);
    assert_eq!(plan.allow_http, None);
}
