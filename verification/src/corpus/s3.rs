//! Fetching objects.

use crate::corpus::config::CorpusConfig;
use crate::corpus::digest::{sha256, verify_sha256};
use crate::corpus::error::CorpusError;
use crate::text::hex;
use vstd::prelude::*;

verus! {

/// How the client for one bucket is to be set up. What is `None` keeps its default.
#[derive(Debug)]
pub struct S3ClientPlan {
    pub bucket: String,
    pub access_key_id: String,
    pub secret_access_key: String,
    pub endpoint: Option<String>,
    pub region: Option<String>,
    pub virtual_hosted_style: Option<bool>,
    pub allow_http: Option<bool>,
}

/// A setting that keeps its default where it is left empty.
pub open spec fn setting(value: String) -> Option<String> {
    if value@.len() == 0 {
        None
    } else {
        Some(value)
    }
}

fn optional_setting(value: &String) -> (r: Option<String>)
    ensures
        r == setting(*value),
{
    if value.as_str().is_empty() {
        None
    } else {
        Some(value.clone())
    }
}

/// Plans the client for `bucket`. Addressing buckets by path goes with plain HTTP.
pub fn client_plan(config: &CorpusConfig, bucket: &str) -> (plan: S3ClientPlan)
    ensures
        plan.bucket@ == bucket@,
        plan.access_key_id == config.s3_access_key,
        plan.secret_access_key == config.s3_secret_key,
        plan.endpoint == setting(config.s3_endpoint),
        plan.region == setting(config.s3_region),
        plan.virtual_hosted_style == (if config.s3_force_path_style {
            Some(false)
        } else {
            None
        }),
        plan.allow_http == (if config.s3_force_path_style {
            Some(true)
        } else {
            None
        }),
{
    S3ClientPlan {
        bucket: bucket.to_owned(),
        access_key_id: config.s3_access_key.clone(),
        secret_access_key: config.s3_secret_key.clone(),
        endpoint: optional_setting(&config.s3_endpoint),
        region: optional_setting(&config.s3_region),
        virtual_hosted_style: if config.s3_force_path_style {
            Some(false)
        } else {
            None
        },
        allow_http: if config.s3_force_path_style {
            Some(true)
        } else {
            None
        },
    }
}

/// Whether fetched bytes are what the index promises: where it promises a digest, they have it.
pub open spec fn as_promised(bytes: Seq<u8>, expected: Option<String>) -> bool {
    expected matches Some(digest) ==> hex(sha256(bytes)) == digest@
}

/// Checks fetched bytes against the digest that the index promises, where it promises one.
pub fn check_object(bucket: &str, key: &str, bytes: &[u8], expected: &Option<String>) -> (r: Result<
    (),
    CorpusError,
>)
    ensures
        r is Ok <==> as_promised(bytes@, *expected),
        r matches Err(e) ==> {
            &&& e matches CorpusError::Sha256Mismatch {
                bucket: b,
                key: k,
                expected: wanted,
                actual,
            }
            &&& b@ == bucket@
            &&& k@ == key@
            &&& *expected matches Some(digest)
            &&& wanted@ == digest@
            &&& actual@ == hex(sha256(bytes@))
        },
{
    match expected {
        Some(digest) => verify_sha256(bucket, key, bytes, digest.as_str()),
        None => Ok(()),
    }
}

} // verus!
