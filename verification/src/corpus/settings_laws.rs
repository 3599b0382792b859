//! What the settings of the corpus lead to.

use crate::corpus::config::{option_views, CorpusConfig};
use crate::corpus::error::CorpusError;
use crate::corpus::s3::{client_plan, S3ClientPlan};
use vstd::prelude::*;

verus! {

/// A configuration is valid exactly when the location of the table and the names of the recording
/// are set.
pub proof fn valid_settings_name_table_and_recording(
    config: &CorpusConfig,
    r: Result<(), CorpusError>,
)
    requires
        call_ensures(CorpusConfig::validate, (config,), r),
    ensures
        r is Ok <==> config.lance_table_uri@.len() > 0 && config.application_id@.len() > 0
            && config.recording_id@.len() > 0,
        r matches Err(e) ==> e is Config,
{
}

/// Every setting that is given reaches the storage under its own names, and what the client of a
/// bucket is told is the same.
pub proof fn storage_is_told_the_settings(
    config: &CorpusConfig,
    options: Vec<(String, String)>,
    bucket: &str,
    plan: S3ClientPlan,
)
    requires
        call_ensures(CorpusConfig::lance_storage_options, (config,), options),
        call_ensures(client_plan, (config, bucket), plan),
    ensures
        ({
            let told = option_views(options@);
            &&& config.s3_endpoint@.len() > 0 ==> told.contains(
                ("aws_endpoint"@, config.s3_endpoint@),
            ) && plan.endpoint == Some(config.s3_endpoint)
            &&& config.s3_region@.len() > 0 ==> told.contains(("aws_region"@, config.s3_region@))
                && plan.region == Some(config.s3_region)
            &&& config.s3_access_key@.len() > 0 ==> told.contains(
                ("aws_access_key_id"@, config.s3_access_key@),
            )
            &&& config.s3_secret_key@.len() > 0 ==> told.contains(
                ("aws_secret_access_key"@, config.s3_secret_key@),
            )
            &&& config.s3_force_path_style ==> told.contains(
                ("aws_virtual_hosted_style_request"@, "false"@),
            ) && told.contains(("aws_allow_http"@, "true"@)) && plan.virtual_hosted_style == Some(
                false,
            ) && plan.allow_http == Some(true)
        }),
        plan.bucket@ == bucket@,
        plan.access_key_id == config.s3_access_key,
        plan.secret_access_key == config.s3_secret_key,
        config.s3_endpoint@.len() == 0 ==> plan.endpoint is None,
        config.s3_region@.len() == 0 ==> plan.region is None,
        !config.s3_force_path_style ==> plan.virtual_hosted_style is None && plan.allow_http
            is None,
        config.s3_endpoint@.len() == 0 && config.s3_region@.len() == 0
            && config.s3_access_key@.len() == 0 && config.s3_secret_key@.len() == 0
            && !config.s3_force_path_style ==> options@.len() == 0,
{
    let told = config.storage_options();
    let e: int = if config.s3_endpoint@.len() > 0 {
        3
    } else {
        0
    };
    let r: int = if config.s3_region@.len() > 0 {
        2
    } else {
        0
    };
    let a: int = if config.s3_access_key@.len() > 0 {
        2
    } else {
        0
    };
    let s: int = if config.s3_secret_key@.len() > 0 {
        2
    } else {
        0
    };
    if e > 0 {
        assert(told[0] == ("aws_endpoint"@, config.s3_endpoint@));
    }
    if r > 0 {
        assert(told[e] == ("aws_region"@, config.s3_region@));
    }
    if a > 0 {
        assert(told[e + r] == ("aws_access_key_id"@, config.s3_access_key@));
    }
    if s > 0 {
        assert(told[e + r + a] == ("aws_secret_access_key"@, config.s3_secret_key@));
    }
    if config.s3_force_path_style {
        assert(told[e + r + a + s] == ("aws_virtual_hosted_style_request"@, "false"@));
        assert(told[e + r + a + s + 2] == ("aws_allow_http"@, "true"@));
    }
    assert(option_views(options@).len() == options@.len());
}

} // verus!
