//! Table entries of a catalog.

use vstd::prelude::*;

verus! {

/// How rows are written to a table.
#[derive(Debug, Clone, Copy, PartialEq, Eq, Structural)]
pub enum TableInsertMode {
    Append,
    Overwrite,
    Replace,
}

/// How rows are written to a table, as callers from Python name it.
#[derive(Debug, Clone, Copy, PartialEq, Eq, Structural)]
pub enum PyTableInsertModeInternal {
    Append,
    Overwrite,
    Replace,
}

impl PyTableInsertModeInternal {
    /// The number of the mode.
    pub fn value(self) -> (r: i32)
        ensures
            r == match self {
                PyTableInsertModeInternal::Append => 1int,
                PyTableInsertModeInternal::Overwrite => 2,
                PyTableInsertModeInternal::Replace => 3,
            },
    {
        match self {
            PyTableInsertModeInternal::Append => 1,
            PyTableInsertModeInternal::Overwrite => 2,
            PyTableInsertModeInternal::Replace => 3,
        }
    }
}

/// The mode that a caller from Python names.
pub open spec fn insert_mode(mode: PyTableInsertModeInternal) -> TableInsertMode {
    match mode {
        PyTableInsertModeInternal::Append => TableInsertMode::Append,
        PyTableInsertModeInternal::Overwrite => TableInsertMode::Overwrite,
        PyTableInsertModeInternal::Replace => TableInsertMode::Replace,
    }
}

impl vstd::std_specs::convert::FromSpecImpl<PyTableInsertModeInternal> for TableInsertMode {
    open spec fn obeys_from_spec() -> bool {
        true
    }

    open spec fn from_spec(value: PyTableInsertModeInternal) -> Self {
        insert_mode(value)
    }
}

impl From<PyTableInsertModeInternal> for TableInsertMode {
    fn from(value: PyTableInsertModeInternal) -> (r: Self) {
        match value {
            PyTableInsertModeInternal::Append => TableInsertMode::Append,
            PyTableInsertModeInternal::Overwrite => TableInsertMode::Overwrite,
            PyTableInsertModeInternal::Replace => TableInsertMode::Replace,
        }
    }
}

/// What backs a table.
#[derive(Debug)]
pub enum ProviderDetails {
    /// A table that is stored at a location.
    LanceTable { table_url: String },
    /// A table of the catalog itself.
    SystemTable,
}

/// A table entry in a catalog.
#[derive(Debug)]
pub struct PyTableEntryInternal {
    pub name: String,
    pub url: Option<String>,
}

/// Measures of distance between vectors.
#[derive(Debug, Clone, Copy, PartialEq, Eq, Structural)]
pub enum VectorDistanceMetric {
    L2,
    Cosine,
    Dot,
    Hamming,
}

/// What a vector index is asked for.
#[derive(Debug)]
pub struct VectorIndexRequest {
    pub column: String,
    pub target_partition_num_rows: Option<u32>,
    pub num_sub_vectors: Option<u32>,
    pub metric: VectorDistanceMetric,
    pub replace: bool,
}

impl PyTableEntryInternal {
    /// An entry for a table. Only a table that is stored at a location has a location.
    pub fn new(name: String, provider: ProviderDetails) -> (r: Self)
        ensures
            r.name == name,
            r.url == match provider {
                ProviderDetails::LanceTable { table_url } => Some(table_url),
                ProviderDetails::SystemTable => None,
            },
    {
        let url = match provider {
            ProviderDetails::LanceTable { table_url } => Some(table_url),
            ProviderDetails::SystemTable => None,
        };
        PyTableEntryInternal { name, url }
    }

    /// Where the table is stored; empty for a table without a location.
    pub open spec fn location(&self) -> Seq<char> {
        match self.url {
            Some(url) => url@,
            None => Seq::empty(),
        }
    }

    /// Where the table is stored.
    pub fn storage_url(&self) -> (r: String)
        ensures
            r@ == self.location(),
    {
        match &self.url {
            Some(url) => url.clone(),
            None => {
                let r = String::new();
                assert(r@ =~= Seq::<char>::empty());
                r
            },
        }
    }

    /// The entry in words.
    pub fn describe(&self) -> (r: String)
        ensures
            r@ == "TableEntry(url='"@ + self.location() + "')"@,
    {
        let mut out = "TableEntry(url='".to_owned();
        out.append(self.storage_url().as_str());
        out.append("')");
        out
    }

    /// What to ask for to index a column of vectors.
    pub fn vector_index_request(
        column: String,
        metric: VectorDistanceMetric,
        replace: bool,
    ) -> (r: VectorIndexRequest)
        ensures
            r == (VectorIndexRequest {
                column,
                target_partition_num_rows: None,
                num_sub_vectors: Some(1),
                metric,
                replace,
            }),
    {
        VectorIndexRequest {
            column,
            target_partition_num_rows: None,
            num_sub_vectors: Some(1),
            metric,
            replace,
        }
    }
}

/// One reply of a vector search.
#[derive(Debug)]
pub enum SearchReply<B> {
    /// The request failed.
    Failed(String),
    /// The reply carries nothing.
    NoPayload,
    /// The reply cannot be read.
    Unreadable(String),
    /// The reply carries a batch of results.
    Batch(B),
}

/// What a reply without results is reported as.
pub open spec fn reply_error<B>(reply: SearchReply<B>) -> Option<Seq<char>> {
    match reply {
        SearchReply::Failed(message) => Some(message@),
        SearchReply::NoPayload => Some("missing record batch payload"@),
        SearchReply::Unreadable(message) => Some(message@),
        SearchReply::Batch(_) => None,
    }
}

/// Takes the next reply of a vector search into `batches`.
pub fn accept_reply<B>(batches: &mut Vec<B>, reply: SearchReply<B>) -> (r: Result<(), String>)
    ensures
        match r {
            Ok(_) => {
                &&& reply matches SearchReply::Batch(batch)
                &&& final(batches)@ == old(batches)@.push(batch)
            },
            Err(message) => reply_error(reply) == Some(message@) && final(batches)@
                == old(batches)@,
        },
{
    match reply {
        SearchReply::Failed(message) => Err(message),
        SearchReply::NoPayload => Err("missing record batch payload".to_owned()),
        SearchReply::Unreadable(message) => Err(message),
        SearchReply::Batch(batch) => {
            batches.push(batch);
            Ok(())
        },
    }
}

/// Ends a vector search: a search without any results is an error.
pub fn finish_search<B>(batches: Vec<B>) -> (r: Result<Vec<B>, String>)
    ensures
        match r {
            Ok(results) => results@ == batches@ && batches@.len() > 0,
            Err(message) => batches@.len() == 0 && message@ == "empty vector search response"@,
        },
{
    if batches.is_empty() {
        return Err("empty vector search response".to_owned());
    }
    Ok(batches)
}

/// Results of a search come in the order of their replies, and a reply without a result leaves
/// those that are there and is an error.
pub proof fn replies_add_their_batch<B>()
    ensures
        forall|batches: &mut Vec<B>, reply: SearchReply<B>, r: Result<(), String>|
            #[trigger] call_ensures(accept_reply::<B>, (batches, reply), r) ==> {
                &&& r is Ok <==> reply is Batch
                &&& reply matches SearchReply::Batch(batch) ==> final(batches)@ == batches@.push(
                    batch,
                )
                &&& !(reply is Batch) ==> final(batches)@ == batches@
                &&& reply matches SearchReply::Failed(message) ==> r is Err && r->Err_0@
                    == message@
            },
        forall|batches: Vec<B>, r: Result<Vec<B>, String>|
            #[trigger] call_ensures(finish_search::<B>, (batches,), r) ==> {
                &&& r is Ok <==> batches@.len() > 0
                &&& r matches Ok(results) ==> results@ == batches@
            },
{
}

/// Only a table that is stored somewhere has a location, and it is the one that it was given.
pub proof fn tables_tell_their_location(
    name: String,
    provider: ProviderDetails,
    entry: PyTableEntryInternal,
    url: String,
)
    requires
        call_ensures(PyTableEntryInternal::new, (name, provider), entry),
        call_ensures(PyTableEntryInternal::storage_url, (&entry,), url),
    ensures
        entry.name == name,
        provider matches ProviderDetails::LanceTable { table_url } ==> url@ == table_url@,
        provider is SystemTable ==> url@.len() == 0,
{
}

} // verus!
