//! Configuration of the corpus.

use crate::corpus::error::CorpusError;
use vstd::prelude::*;

verus! {

/// Where the corpus lives and what the recording made of it is called.
#[derive(Debug)]
pub struct CorpusConfig {
    /// Location of the index table, such as `s3://nereid-audio/index/corpus.lance`.
    pub lance_table_uri: String,
    /// S3-compatible endpoint; empty for the AWS default.
    pub s3_endpoint: String,
    pub s3_region: String,
    pub s3_access_key: String,
    pub s3_secret_key: String,
    /// Whether buckets are addressed by path, as MinIO needs it.
    pub s3_force_path_style: bool,
    /// Application identifier of the recording, stable across restarts.
    pub application_id: String,
    /// Recording identifier, stable across restarts.
    pub recording_id: String,
    /// How many rows the initial scan considers at most; all of them where there is none.
    pub max_initial_rows: Option<usize>,
}

impl Clone for CorpusConfig {
    fn clone(&self) -> (r: Self)
        ensures
            r == *self,
    {
        CorpusConfig {
            lance_table_uri: self.lance_table_uri.clone(),
            s3_endpoint: self.s3_endpoint.clone(),
            s3_region: self.s3_region.clone(),
            s3_access_key: self.s3_access_key.clone(),
            s3_secret_key: self.s3_secret_key.clone(),
            s3_force_path_style: self.s3_force_path_style,
            application_id: self.application_id.clone(),
            recording_id: self.recording_id.clone(),
            max_initial_rows: self.max_initial_rows,
        }
    }
}

/// The views of option pairs.
pub open spec fn option_views(options: Seq<(String, String)>) -> Seq<(Seq<char>, Seq<char>)> {
    options.map_values(|o: (String, String)| (o.0@, o.1@))
}

/// Each of `names` with the value `value`.
pub open spec fn options_for(names: Seq<Seq<char>>, value: Seq<char>) -> Seq<
    (Seq<char>, Seq<char>),
> {
    names.map_values(|name: Seq<char>| (name, value))
}

/// The options for a setting: none where it is left empty.
pub open spec fn optional_options(names: Seq<Seq<char>>, value: Seq<char>) -> Seq<
    (Seq<char>, Seq<char>),
> {
    if value.len() == 0 {
        Seq::empty()
    } else {
        options_for(names, value)
    }
}

impl CorpusConfig {
    /// The options under which the index table and the objects are opened.
    pub open spec fn storage_options(&self) -> Seq<(Seq<char>, Seq<char>)> {
        optional_options(seq!["aws_endpoint"@, "endpoint"@, "AWS_ENDPOINT"@], self.s3_endpoint@)
            + optional_options(seq!["aws_region"@, "region"@], self.s3_region@) + optional_options(
            seq!["aws_access_key_id"@, "access_key_id"@],
            self.s3_access_key@,
        ) + optional_options(
            seq!["aws_secret_access_key"@, "secret_access_key"@],
            self.s3_secret_key@,
        ) + (if self.s3_force_path_style {
            options_for(
                seq!["aws_virtual_hosted_style_request"@, "virtual_hosted_style_request"@],
                "false"@,
            ) + options_for(seq!["aws_allow_http"@, "allow_http"@], "true"@)
        } else {
            Seq::empty()
        })
    }

    /// The first setting that must not be empty and is.
    pub open spec fn missing_setting(&self) -> Option<Seq<char>> {
        if self.lance_table_uri@.len() == 0 {
            Some("lance_table_uri must not be empty"@)
        } else if self.application_id@.len() == 0 {
            Some("application_id must not be empty"@)
        } else if self.recording_id@.len() == 0 {
            Some("recording_id must not be empty"@)
        } else {
            None
        }
    }

    /// Builds the options under which the index table and the objects are opened.
    pub fn lance_storage_options(&self) -> (options: Vec<(String, String)>)
        ensures
            option_views(options@) == self.storage_options(),
    {
        let mut out: Vec<(String, String)> = Vec::new();
        if !self.s3_endpoint.as_str().is_empty() {
            push_option(&mut out, "aws_endpoint", self.s3_endpoint.as_str());
            push_option(&mut out, "endpoint", self.s3_endpoint.as_str());
            push_option(&mut out, "AWS_ENDPOINT", self.s3_endpoint.as_str());
        }
        assert(option_views(out@) =~= optional_options(
            seq!["aws_endpoint"@, "endpoint"@, "AWS_ENDPOINT"@],
            self.s3_endpoint@,
        ));
        if !self.s3_region.as_str().is_empty() {
            push_option(&mut out, "aws_region", self.s3_region.as_str());
            push_option(&mut out, "region", self.s3_region.as_str());
        }
        if !self.s3_access_key.as_str().is_empty() {
            push_option(&mut out, "aws_access_key_id", self.s3_access_key.as_str());
            push_option(&mut out, "access_key_id", self.s3_access_key.as_str());
        }
        if !self.s3_secret_key.as_str().is_empty() {
            push_option(&mut out, "aws_secret_access_key", self.s3_secret_key.as_str());
            push_option(&mut out, "secret_access_key", self.s3_secret_key.as_str());
        }
        if self.s3_force_path_style {
            push_option(&mut out, "aws_virtual_hosted_style_request", "false");
            push_option(&mut out, "virtual_hosted_style_request", "false");
            push_option(&mut out, "aws_allow_http", "true");
            push_option(&mut out, "allow_http", "true");
        }
        assert(option_views(out@) =~= self.storage_options());
        out
    }

    /// Checks that what must be set is set.
    pub fn validate(&self) -> (r: Result<(), CorpusError>)
        ensures
            match r {
                Ok(_) => self.missing_setting() is None,
                Err(e) => e matches CorpusError::Config(message) && self.missing_setting() == Some(
                    message@,
                ),
            },
    {
        if self.lance_table_uri.as_str().is_empty() {
            return Err(CorpusError::Config("lance_table_uri must not be empty".to_owned()));
        }
        if self.application_id.as_str().is_empty() {
            return Err(CorpusError::Config("application_id must not be empty".to_owned()));
        }
        if self.recording_id.as_str().is_empty() {
            return Err(CorpusError::Config("recording_id must not be empty".to_owned()));
        }
        Ok(())
    }
}

/// No option is set twice.
pub proof fn options_are_set_once(config: CorpusConfig)
    ensures
        forall|i: int, j: int|
            0 <= i < j < config.storage_options().len() ==> (#[trigger]
            config.storage_options()[i]).0 != (#[trigger] config.storage_options()[j]).0,
{
    lemma_ranks();
    let endpoint = optional_options(
        seq!["aws_endpoint"@, "endpoint"@, "AWS_ENDPOINT"@],
        config.s3_endpoint@,
    );
    let region = optional_options(seq!["aws_region"@, "region"@], config.s3_region@);
    let access = optional_options(
        seq!["aws_access_key_id"@, "access_key_id"@],
        config.s3_access_key@,
    );
    let secret = optional_options(
        seq!["aws_secret_access_key"@, "secret_access_key"@],
        config.s3_secret_key@,
    );
    let path_style = if config.s3_force_path_style {
        options_for(
            seq!["aws_virtual_hosted_style_request"@, "virtual_hosted_style_request"@],
            "false"@,
        ) + options_for(seq!["aws_allow_http"@, "allow_http"@], "true"@)
    } else {
        Seq::empty()
    };
    assert(ranked(endpoint, 0, 3));
    assert(ranked(region, 3, 5));
    assert(ranked(access, 5, 7));
    assert(ranked(secret, 7, 9));
    assert(ranked(path_style, 9, 13));
    lemma_ranked_concat(endpoint, region, 0, 3, 5);
    lemma_ranked_concat(endpoint + region, access, 0, 5, 7);
    lemma_ranked_concat(endpoint + region + access, secret, 0, 7, 9);
    lemma_ranked_concat(endpoint + region + access + secret, path_style, 0, 9, 13);
    let options = config.storage_options();
    assert(options =~= endpoint + region + access + secret + path_style);
    assert forall|i: int, j: int| 0 <= i < j < options.len() implies (#[trigger] options[i]).0 != (
    #[trigger] options[j]).0 by {
        assert(option_rank(options[i].0) < option_rank(options[j].0));
    }
}

/// The place of an option among all options that can be set.
spec fn option_rank(name: Seq<char>) -> int {
    if name == "aws_endpoint"@ {
        0
    } else if name == "endpoint"@ {
        1
    } else if name == "AWS_ENDPOINT"@ {
        2
    } else if name == "aws_region"@ {
        3
    } else if name == "region"@ {
        4
    } else if name == "aws_access_key_id"@ {
        5
    } else if name == "access_key_id"@ {
        6
    } else if name == "aws_secret_access_key"@ {
        7
    } else if name == "secret_access_key"@ {
        8
    } else if name == "aws_virtual_hosted_style_request"@ {
        9
    } else if name == "virtual_hosted_style_request"@ {
        10
    } else if name == "aws_allow_http"@ {
        11
    } else {
        12
    }
}

/// Whether the places of options go up from `low` and stay below `high`.
spec fn ranked(options: Seq<(Seq<char>, Seq<char>)>, low: int, high: int) -> bool {
    &&& forall|i: int|
        0 <= i < options.len() ==> low <= option_rank((#[trigger] options[i]).0) < high
    &&& forall|i: int, j: int|
        0 <= i < j < options.len() ==> option_rank((#[trigger] options[i]).0) < option_rank(
            (#[trigger] options[j]).0,
        )
}

proof fn lemma_ranked_concat(
    a: Seq<(Seq<char>, Seq<char>)>,
    b: Seq<(Seq<char>, Seq<char>)>,
    low: int,
    middle: int,
    high: int,
)
    requires
        low <= middle <= high,
        ranked(a, low, middle),
        ranked(b, middle, high),
    ensures
        ranked(a + b, low, high),
{
    let c = a + b;
    assert forall|i: int| 0 <= i < c.len() implies low <= option_rank((#[trigger] c[i]).0)
        < high by {
        if i < a.len() {
            assert(c[i] == a[i]);
        } else {
            assert(c[i] == b[i - a.len()]);
        }
    }
    assert forall|i: int, j: int| 0 <= i < j < c.len() implies option_rank((#[trigger] c[i]).0)
        < option_rank((#[trigger] c[j]).0) by {
        if j < a.len() {
            assert(c[i] == a[i] && c[j] == a[j]);
        } else if i < a.len() {
            assert(c[i] == a[i] && c[j] == b[j - a.len()]);
        } else {
            assert(c[i] == b[i - a.len()] && c[j] == b[j - a.len()]);
        }
    }
}

proof fn lemma_ranks()
    ensures
        option_rank("aws_endpoint"@) == 0,
        option_rank("endpoint"@) == 1,
        option_rank("AWS_ENDPOINT"@) == 2,
        option_rank("aws_region"@) == 3,
        option_rank("region"@) == 4,
        option_rank("aws_access_key_id"@) == 5,
        option_rank("access_key_id"@) == 6,
        option_rank("aws_secret_access_key"@) == 7,
        option_rank("secret_access_key"@) == 8,
        option_rank("aws_virtual_hosted_style_request"@) == 9,
        option_rank("virtual_hosted_style_request"@) == 10,
        option_rank("aws_allow_http"@) == 11,
        option_rank("allow_http"@) == 12,
{
    reveal_strlit("aws_endpoint");
    reveal_strlit("endpoint");
    reveal_strlit("AWS_ENDPOINT");
    reveal_strlit("aws_region");
    reveal_strlit("region");
    reveal_strlit("aws_access_key_id");
    reveal_strlit("access_key_id");
    reveal_strlit("aws_secret_access_key");
    reveal_strlit("secret_access_key");
    reveal_strlit("aws_virtual_hosted_style_request");
    reveal_strlit("virtual_hosted_style_request");
    reveal_strlit("aws_allow_http");
    reveal_strlit("allow_http");
    assert("aws_endpoint"@.len() == 12);
    assert("endpoint"@.len() == 8);
    assert("AWS_ENDPOINT"@.len() == 12);
    assert("aws_region"@.len() == 10);
    assert("region"@.len() == 6);
    assert("aws_access_key_id"@.len() == 17);
    assert("access_key_id"@.len() == 13);
    assert("aws_secret_access_key"@.len() == 21);
    assert("secret_access_key"@.len() == 17);
    assert("aws_virtual_hosted_style_request"@.len() == 32);
    assert("virtual_hosted_style_request"@.len() == 28);
    assert("aws_allow_http"@.len() == 14);
    assert("allow_http"@.len() == 10);
    assert("aws_endpoint"@[0] != "AWS_ENDPOINT"@[0]);
    assert("aws_access_key_id"@[0] != "secret_access_key"@[0]);
    assert("aws_region"@[1] != "allow_http"@[1]);
}

fn push_option(out: &mut Vec<(String, String)>, name: &str, value: &str)
    ensures
        option_views(final(out)@) == option_views(old(out)@).push((name@, value@)),
{
    out.push((name.to_owned(), value.to_owned()));
    assert(option_views(out@) =~= option_views(old(out)@).push((name@, value@)));
}

} // verus!
