//! Decoding rows of the corpus index from the columns of a scan.

use crate::corpus::error::CorpusError;
use crate::corpus::row::CorpusChunkRow;
use vstd::prelude::*;

verus! {

/// A text column: which cells are null, and what each cell reads as.
#[derive(Debug)]
pub struct StringColumn {
    pub nulls: Vec<bool>,
    pub values: Vec<String>,
}

/// The cells of a column, by type.
#[derive(Debug)]
pub enum ColumnValues {
    Utf8(StringColumn),
    Int64(Vec<i64>),
    Other,
}

/// A named column.
#[derive(Debug)]
pub struct Column {
    pub name: String,
    pub values: ColumnValues,
}

/// Columns of equal length, as one scan step hands them out.
#[derive(Debug)]
pub struct RecordBatch {
    pub num_rows: usize,
    pub columns: Vec<Column>,
}

/// The position of the first column called `name`, looking at the first `n` columns.
pub open spec fn column_position(columns: Seq<Column>, name: Seq<char>, n: nat) -> Option<int>
    decreases n,
{
    if n == 0 {
        None
    } else {
        match column_position(columns, name, (n - 1) as nat) {
            Some(i) => Some(i),
            None => if columns[n - 1].name@ == name {
                Some(n - 1)
            } else {
                None
            },
        }
    }
}

impl RecordBatch {
    /// Every column has one cell per row.
    pub open spec fn wf(&self) -> bool {
        forall|i: int|
            0 <= i < self.columns@.len() ==> match (#[trigger] self.columns@[i]).values {
                ColumnValues::Utf8(c) => c.nulls@.len() == self.num_rows && c.values@.len()
                    == self.num_rows,
                ColumnValues::Int64(c) => c@.len() == self.num_rows,
                ColumnValues::Other => true,
            }
    }

    /// The text column called `name`.
    pub open spec fn strings(&self, name: Seq<char>) -> Option<StringColumn> {
        match column_position(self.columns@, name, self.columns@.len()) {
            Some(i) => match self.columns@[i].values {
                ColumnValues::Utf8(c) => Some(c),
                _ => None,
            },
            None => None,
        }
    }

    /// The integer column called `name`.
    pub open spec fn integers(&self, name: Seq<char>) -> Option<Vec<i64>> {
        match column_position(self.columns@, name, self.columns@.len()) {
            Some(i) => match self.columns@[i].values {
                ColumnValues::Int64(c) => Some(c),
                _ => None,
            },
            None => None,
        }
    }

    /// The first of the required columns that is absent or has another type.
    pub open spec fn missing_column(&self) -> Option<Seq<char>> {
        if self.strings("chunk_id"@) is None {
            Some("chunk_id"@)
        } else if self.strings("room"@) is None {
            Some("room"@)
        } else if self.strings("participant_identity"@) is None {
            Some("participant_identity"@)
        } else if self.strings("track_id"@) is None {
            Some("track_id"@)
        } else if self.integers("sequence_no"@) is None {
            Some("sequence_no"@)
        } else if self.integers("chunk_start_ns"@) is None {
            Some("chunk_start_ns"@)
        } else if self.integers("chunk_end_ns"@) is None {
            Some("chunk_end_ns"@)
        } else if self.strings("s3_bucket"@) is None {
            Some("s3_bucket"@)
        } else if self.strings("s3_key"@) is None {
            Some("s3_key"@)
        } else {
            None
        }
    }

    /// Whether row `i` lacks its chunk identifier.
    pub open spec fn null_id(&self, i: int) -> bool {
        self.strings("chunk_id"@)->0.nulls@[i]
    }

    /// Whether row `i` names the object that holds its audio.
    pub open spec fn published(&self, i: int) -> bool {
        &&& self.strings("s3_bucket"@)->0.values@[i]@.len() > 0
        &&& self.strings("s3_key"@)->0.values@[i]@.len() > 0
    }

    /// The cell of row `i` in the optional text column `name`, when it is there, not null and
    /// not empty.
    pub open spec fn optional_cell(&self, name: Seq<char>, i: int) -> Option<String> {
        match self.strings(name) {
            Some(c) => if c.nulls@[i] || c.values@[i]@.len() == 0 {
                None
            } else {
                Some(c.values@[i])
            },
            None => None,
        }
    }

    /// What row `i` decodes to.
    pub open spec fn decoded(&self, i: int) -> CorpusChunkRow {
        CorpusChunkRow {
            chunk_id_str: self.strings("chunk_id"@)->0.values@[i],
            room: self.strings("room"@)->0.values@[i],
            participant_identity: self.strings("participant_identity"@)->0.values@[i],
            track_id: self.strings("track_id"@)->0.values@[i],
            sequence_no: self.integers("sequence_no"@)->0@[i],
            chunk_start_ns: self.integers("chunk_start_ns"@)->0@[i],
            chunk_end_ns: self.integers("chunk_end_ns"@)->0@[i],
            s3_bucket: self.strings("s3_bucket"@)->0.values@[i],
            s3_key: self.strings("s3_key"@)->0.values@[i],
            sha256: self.optional_cell("sha256"@, i),
            codec_audio: self.optional_cell("codec_audio"@, i),
        }
    }

    /// What the published rows among the first `n` decode to, in order.
    pub open spec fn decoded_rows(&self, n: nat) -> Seq<CorpusChunkRow>
        decreases n,
    {
        if n == 0 {
            Seq::empty()
        } else if self.published(n - 1) {
            self.decoded_rows((n - 1) as nat).push(self.decoded(n - 1))
        } else {
            self.decoded_rows((n - 1) as nat)
        }
    }
}

proof fn lemma_position_bounds(columns: Seq<Column>, name: Seq<char>, n: nat)
    requires
        n <= columns.len(),
    ensures
        match column_position(columns, name, n) {
            Some(i) => 0 <= i < n && columns[i].name@ == name,
            None => forall|i: int| 0 <= i < n ==> (#[trigger] columns[i]).name@ != name,
        },
    decreases n,
{
    if n > 0 {
        lemma_position_bounds(columns, name, (n - 1) as nat);
    }
}

proof fn lemma_position_is_first(columns: Seq<Column>, name: Seq<char>, n: nat, at: int)
    requires
        n <= columns.len(),
        0 <= at < n,
        columns[at].name@ == name,
        forall|i: int| 0 <= i < at ==> (#[trigger] columns[i]).name@ != name,
    ensures
        column_position(columns, name, n) == Some(at),
    decreases n,
{
    if n - 1 > at {
        lemma_position_is_first(columns, name, (n - 1) as nat, at);
    } else {
        lemma_position_bounds(columns, name, (n - 1) as nat);
    }
}

/// The first column called `name`.
fn column_by_name<'a>(batch: &'a RecordBatch, name: &str) -> (r: Option<&'a Column>)
    ensures
        match column_position(batch.columns@, name@, batch.columns@.len()) {
            Some(i) => 0 <= i < batch.columns@.len() && r == Some(&batch.columns@[i]),
            None => r is None,
        },
{
    let wanted = name.to_owned();
    let mut i: usize = 0;
    while i < batch.columns.len()
        invariant
            i <= batch.columns@.len(),
            wanted@ == name@,
            forall|j: int| 0 <= j < i ==> (#[trigger] batch.columns@[j]).name@ != name@,
        decreases batch.columns@.len() - i,
    {
        if batch.columns[i].name == wanted {
            proof {
                lemma_position_is_first(batch.columns@, name@, batch.columns@.len(), i as int);
            }
            return Some(&batch.columns[i]);
        }
        i = i + 1;
    }
    proof {
        lemma_position_bounds(batch.columns@, name@, batch.columns@.len());
    }
    None
}

fn optional_string<'a>(batch: &'a RecordBatch, name: &str) -> (r: Option<&'a StringColumn>)
    ensures
        match r {
            Some(c) => batch.strings(name@) == Some(*c),
            None => batch.strings(name@) is None,
        },
        batch.wf() ==> (r matches Some(c) ==> c.nulls@.len() == batch.num_rows && c.values@.len()
            == batch.num_rows),
{
    match column_by_name(batch, name) {
        Some(column) => match &column.values {
            ColumnValues::Utf8(c) => Some(c),
            _ => None,
        },
        None => None,
    }
}

fn required_string<'a>(batch: &'a RecordBatch, name: &'static str) -> (r: Result<
    &'a StringColumn,
    CorpusError,
>)
    ensures
        match r {
            Ok(c) => batch.strings(name@) == Some(*c),
            Err(e) => batch.strings(name@) is None && (e matches CorpusError::MissingColumn(n)
                && n@ == name@),
        },
        batch.wf() ==> (r matches Ok(c) ==> c.nulls@.len() == batch.num_rows && c.values@.len()
            == batch.num_rows),
{
    match optional_string(batch, name) {
        Some(c) => Ok(c),
        None => Err(CorpusError::MissingColumn(name)),
    }
}

fn required_int64<'a>(batch: &'a RecordBatch, name: &'static str) -> (r: Result<
    &'a Vec<i64>,
    CorpusError,
>)
    ensures
        match r {
            Ok(c) => batch.integers(name@) == Some(*c),
            Err(e) => batch.integers(name@) is None && (e matches CorpusError::MissingColumn(n)
                && n@ == name@),
        },
        batch.wf() ==> (r matches Ok(c) ==> c@.len() == batch.num_rows),
{
    match column_by_name(batch, name) {
        Some(column) => match &column.values {
            ColumnValues::Int64(c) => Ok(c),
            _ => Err(CorpusError::MissingColumn(name)),
        },
        None => Err(CorpusError::MissingColumn(name)),
    }
}

/// The cell of row `i`, when there is such a column and the cell is neither null nor empty.
fn nullable_str(column: &Option<&StringColumn>, i: usize) -> (r: Option<String>)
    requires
        column matches Some(c) ==> i < c.nulls@.len() && i < c.values@.len(),
    ensures
        r == match *column {
            Some(c) => if c.nulls@[i as int] || c.values@[i as int]@.len() == 0 {
                None
            } else {
                Some(c.values@[i as int])
            },
            None => None,
        },
{
    match column {
        Some(c) => if c.nulls[i] || c.values[i].as_str().is_empty() {
            None
        } else {
            Some(c.values[i].clone())
        },
        None => None,
    }
}

/// Decodes the published rows of a batch.
///
/// Rows whose bucket or key is empty are not published yet and are passed over; `sha256` and
/// `codec_audio` may be absent.
pub fn rows_from_record_batch(batch: &RecordBatch) -> (r: Result<Vec<CorpusChunkRow>, CorpusError>)
    requires
        batch.wf(),
    ensures
        match r {
            Ok(rows) => {
                &&& batch.missing_column() is None
                &&& forall|i: int| 0 <= i < batch.num_rows ==> !#[trigger] batch.null_id(i)
                &&& rows@ == batch.decoded_rows(batch.num_rows as nat)
            },
            Err(CorpusError::MissingColumn(name)) => batch.missing_column() == Some(name@),
            Err(CorpusError::NullCell { row, column }) => {
                &&& batch.missing_column() is None
                &&& row < batch.num_rows
                &&& batch.null_id(row as int)
                &&& forall|i: int| 0 <= i < row ==> !#[trigger] batch.null_id(i)
                &&& column@ == "chunk_id"@
            },
            Err(_) => false,
        },
{
    let chunk_id = required_string(batch, "chunk_id")?;
    let room = required_string(batch, "room")?;
    let participant = required_string(batch, "participant_identity")?;
    let track_id = required_string(batch, "track_id")?;
    let sequence_no = required_int64(batch, "sequence_no")?;
    let chunk_start_ns = required_int64(batch, "chunk_start_ns")?;
    let chunk_end_ns = required_int64(batch, "chunk_end_ns")?;
    let s3_bucket = required_string(batch, "s3_bucket")?;
    let s3_key = required_string(batch, "s3_key")?;
    let sha256 = optional_string(batch, "sha256");
    let codec_audio = optional_string(batch, "codec_audio");

    let mut out: Vec<CorpusChunkRow> = Vec::new();
    let mut i: usize = 0;
    while i < batch.num_rows
        invariant
            i <= batch.num_rows,
            batch.wf(),
            batch.missing_column() is None,
            batch.strings("chunk_id"@) == Some(*chunk_id),
            batch.strings("room"@) == Some(*room),
            batch.strings("participant_identity"@) == Some(*participant),
            batch.strings("track_id"@) == Some(*track_id),
            batch.integers("sequence_no"@) == Some(*sequence_no),
            batch.integers("chunk_start_ns"@) == Some(*chunk_start_ns),
            batch.integers("chunk_end_ns"@) == Some(*chunk_end_ns),
            batch.strings("s3_bucket"@) == Some(*s3_bucket),
            batch.strings("s3_key"@) == Some(*s3_key),
            match sha256 {
                Some(c) => batch.strings("sha256"@) == Some(*c),
                None => batch.strings("sha256"@) is None,
            },
            match codec_audio {
                Some(c) => batch.strings("codec_audio"@) == Some(*c),
                None => batch.strings("codec_audio"@) is None,
            },
            chunk_id.nulls@.len() == batch.num_rows,
            chunk_id.values@.len() == batch.num_rows,
            room.values@.len() == batch.num_rows,
            participant.values@.len() == batch.num_rows,
            track_id.values@.len() == batch.num_rows,
            sequence_no@.len() == batch.num_rows,
            chunk_start_ns@.len() == batch.num_rows,
            chunk_end_ns@.len() == batch.num_rows,
            s3_bucket.values@.len() == batch.num_rows,
            s3_key.values@.len() == batch.num_rows,
            sha256 matches Some(c) ==> c.nulls@.len() == batch.num_rows && c.values@.len()
                == batch.num_rows,
            codec_audio matches Some(c) ==> c.nulls@.len() == batch.num_rows && c.values@.len()
                == batch.num_rows,
            forall|j: int| 0 <= j < i ==> !#[trigger] batch.null_id(j),
            out@ == batch.decoded_rows(i as nat),
        decreases batch.num_rows - i,
    {
        if chunk_id.nulls[i] {
            assert(batch.null_id(i as int));
            return Err(CorpusError::NullCell { row: i, column: "chunk_id" });
        }
        assert(!batch.null_id(i as int));
        let bucket = s3_bucket.values[i].clone();
        let key = s3_key.values[i].clone();
        if bucket.as_str().is_empty() || key.as_str().is_empty() {
            assert(!batch.published(i as int));
            i = i + 1;
            continue;
        }
        assert(batch.published(i as int));
        let row = CorpusChunkRow {
            chunk_id_str: chunk_id.values[i].clone(),
            room: room.values[i].clone(),
            participant_identity: participant.values[i].clone(),
            track_id: track_id.values[i].clone(),
            sequence_no: sequence_no[i],
            chunk_start_ns: chunk_start_ns[i],
            chunk_end_ns: chunk_end_ns[i],
            s3_bucket: bucket,
            s3_key: key,
            sha256: nullable_str(&sha256, i),
            codec_audio: nullable_str(&codec_audio, i),
        };
        assert(row == batch.decoded(i as int));
        out.push(row);
        i = i + 1;
    }
    Ok(out)
}

} // verus!
