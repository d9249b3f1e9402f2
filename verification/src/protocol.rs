//! The requests that the engine makes of its host, and the replies.

use vstd::prelude::*;
use vstd::string::*;
use crate::errors::ConstDBError;
use crate::errors::ErrorView;
use crate::model::DBSettings;
use crate::model::TableSettings;
use crate::params::Params;
use crate::schema::FieldValue;
use crate::schema::FloatReading;

verus! {

/// The texts of a list of strings, in order.
pub open spec fn texts(names: Seq<String>) -> Seq<Seq<char>> {
    Seq::new(names.len(), |i: int| names[i]@)
}

/// The bytes of an optional byte vector.
pub open spec fn option_bytes(bytes: Option<Vec<u8>>) -> Option<Seq<u8>> {
    match bytes {
        Some(b) => Some(b@),
        None => None,
    }
}

/// A vector that holds the same bytes.
pub fn copy_bytes(bytes: &[u8]) -> (copy: Vec<u8>)
    ensures
        copy@ == bytes@,
{
    vstd::slice::slice_to_vec(bytes)
}

/// One entry of a keyspace.
#[derive(Debug, Clone, PartialEq, Eq)]
pub struct Entry {
    pub key: Vec<u8>,
    pub value: Vec<u8>,
}

/// One piece of work that the engine leaves to its host.
///
/// A keyspace is named by its database and table; `table: None` names the
/// default keyspace of the database, which holds the catalog in the system
/// database.
#[derive(Debug, Clone, PartialEq, Eq)]
pub enum Request {
    /// Open the store in the directory `path`, creating it first if it is
    /// absent and `create` is set. Answered by `Opened` with the names of the
    /// store's keyspaces, or by `Absent`.
    OpenStore { db: String, path: String, create: bool },
    /// Close the store of `db` and erase it from the directory `path`.
    /// Answered by `Done`.
    DestroyStore { db: String, path: String },
    /// Create the keyspace of `table`. Answered by `Done`.
    CreateKeyspace { db: String, table: String },
    /// Remove the keyspace of `table`. Answered by `Done`.
    DropKeyspace { db: String, table: String },
    /// Read the value under `key`. Answered by `Value`.
    Get { db: String, table: Option<String>, key: Vec<u8> },
    /// Write `value` under `key`, replacing what was there. Answered by
    /// `Done`.
    Put { db: String, table: Option<String>, key: Vec<u8>, value: Vec<u8> },
    /// Remove what is under `key`. Answered by `Done`.
    Delete { db: String, table: Option<String>, key: Vec<u8> },
    /// Read, in key order, every entry whose key is at least `from` and, if
    /// `until` is given, less than `until`. Answered by `Entries`.
    Scan { db: String, table: Option<String>, from: Vec<u8>, until: Option<Vec<u8>> },
    /// Tell how each value reads as a float. Answered by `Floats`, one
    /// reading for each value.
    ReadFloats { values: Vec<FieldValue> },
}

/// What the host answers to a [`Request`].
#[derive(Debug, Clone, PartialEq, Eq)]
pub enum Reply {
    Done,
    Opened { tables: Vec<String> },
    Absent,
    Value(Option<Vec<u8>>),
    Entries(Vec<Entry>),
    Floats(Vec<FloatReading>),
    /// The work failed; the text says why.
    Failed(String),
}

/// What an operation of the engine ends with when it succeeds.
#[derive(Debug, Clone, PartialEq, Eq)]
pub enum Outcome {
    Unit,
    Flag(bool),
    Database(DBSettings),
    Table(TableSettings),
    Tables(Vec<TableSettings>),
    Text(String),
}

/// A data operation on one table.
#[derive(Debug, Clone, PartialEq, Eq)]
pub enum Operation {
    Query { params: Params },
    Insert { data: Vec<u8> },
    Update { data: Vec<u8>, params: Params },
    Delete { params: Params },
}

/// Where an operation stands while the host works on a request. The host
/// hands it back unchanged together with the reply.
#[derive(Debug, Clone, PartialEq, Eq)]
pub enum Pending {
    OpenSystem,
    Discover,
    OpenDatabases { names: Vec<String>, next: usize },
    OpenCreated { name: String },
    RecordDatabase { name: String },
    Finish,
    TableExists,
    GetTable { db: String, table: String },
    ListTables,
    CheckNewTable { db: String, settings: TableSettings },
    OpenForTable { db: String, settings: TableSettings },
    CreateKeyspace { db: String, settings: TableSettings },
    CheckOldTable { db: String, table: String },
    DropKeyspace { db: String, table: String },
    LoadTable { db: String, table: String, operation: Operation },
    ReadFloats { db: String, table: String, operation: Operation, settings: TableSettings },
    Fetch,
    Scan,
    FetchForUpdate { db: String, table: String, key: Vec<u8>, patch: Vec<u8>, settings: TableSettings },
    FetchForDelete { db: String, table: String, key: Vec<u8> },
}

/// One step of an operation: either a request for the host, with the state
/// to resume from, or the end of the operation.
#[derive(Debug, PartialEq, Eq)]
pub enum Step {
    Ask(Request, Pending),
    Done(Result<Outcome, ConstDBError>),
}

/// The error for a reply that does not answer the request.
pub fn unexpected_reply() -> (error: ConstDBError)
    ensures
        error@ == ErrorView::InvalidStates("the reply does not answer the request"@),
{
    ConstDBError::InvalidStates(String::from_str("the reply does not answer the request"))
}

/// The error for work that the host reports as failed.
pub fn store_failed(detail: &str) -> (error: ConstDBError)
    ensures
        error@ == ErrorView::InvalidStates("rocksdb failed: "@ + detail@),
{
    ConstDBError::invalid_state("rocksdb failed: ", detail)
}

} // verus!
