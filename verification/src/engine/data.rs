//! The data operations: lookup by key, insert, update and delete.

use vstd::prelude::*;
use vstd::string::*;
use vstd::utf8::*;
use crate::engine::Engine;
use crate::engine::EngineView;
use crate::engine::fails_invalid_state;
use crate::engine::fails_with;
use crate::engine::reads_table_entry;
use crate::engine::refuse;
use crate::errors::ConstDBError;
use crate::errors::ErrorView;
use crate::ids::Id;
use crate::ids::IdView;
use crate::json::Json;
use crate::json::parsed_json;
use crate::json::printed_object;
use crate::model::FieldView;
use crate::model::TableSettings;
use crate::model::TableView;
use crate::params::Params;
use crate::pk::KeyView;
use crate::pk::PrimaryKey;
use crate::protocol::copy_bytes;
use crate::protocol::Entry;
use crate::protocol::Operation;
use crate::protocol::option_bytes;
use crate::protocol::Outcome;
use crate::protocol::Pending;
use crate::protocol::Reply;
use crate::protocol::Request;
use crate::protocol::Step;
use crate::range::build_upper_bound;
use crate::range::spec_upper_bound;
use crate::records::spec_read_table;
use crate::schema::FloatReading;
use crate::schema::has_float_key;
use crate::schema::Merge;
use crate::schema::param_values;
use crate::schema::record_values;
use crate::schema::SchemaHelper;
use crate::schema::spec_build_pk_from_json;
use crate::schema::spec_build_pk_from_params;
use crate::schema::spec_merge;
use crate::schema::values_view;
use crate::schema::ValueView;
use crate::text::string_from_utf8;

verus! {

/// A request to read the record under `key` in the keyspace of a table.
pub open spec fn data_get(request: Request, db: Seq<char>, table: Seq<char>, key: Seq<u8>) -> bool {
    request matches Request::Get { db: name, table: Some(keyspace), key: bytes } && name@ == db
        && keyspace@ == table && bytes@ == key
}

/// A request to write `value` under `key` in the keyspace of a table.
pub open spec fn data_put(
    request: Request,
    db: Seq<char>,
    table: Seq<char>,
    key: Seq<u8>,
    value: Seq<u8>,
) -> bool {
    request matches Request::Put { db: name, table: Some(keyspace), key: bytes, value: stored }
        && name@ == db && keyspace@ == table && bytes@ == key && stored@ == value
}

/// A request to remove the record under `key` in the keyspace of a table.
pub open spec fn data_delete(request: Request, db: Seq<char>, table: Seq<char>, key: Seq<u8>) -> bool {
    request matches Request::Delete { db: name, table: Some(keyspace), key: bytes } && name@ == db
        && keyspace@ == table && bytes@ == key
}

/// A request to read every record of a table whose key begins with
/// `prefix`: the scan starts at the prefix and stops before its upper bound.
pub open spec fn data_scan(request: Request, db: Seq<char>, table: Seq<char>, prefix: Seq<u8>) -> bool {
    request matches Request::Scan { db: name, table: Some(keyspace), from, until } && name@ == db
        && keyspace@ == table && from@ == prefix && option_bytes(until) == spec_upper_bound(prefix)
}

/// The first step of a data operation: the catalog entry of the table is
/// read, and the operation is carried along.
pub open spec fn begins(
    engine: EngineView,
    db: Seq<char>,
    table: Seq<char>,
    operation: Operation,
    step: Step,
) -> bool {
    &&& reads_table_entry(engine, db, table, step)
    &&& step matches Step::Ask(_, pending) ==> (pending matches Pending::LoadTable {
        db: carried_db,
        table: carried_table,
        operation: carried,
    } && carried_db@ == db && carried_table@ == table && carried == operation)
}

/// The values that an operation gives to the leading key fields, or `None`
/// where it is an insert whose record is no JSON object.
pub open spec fn key_values_of(keys: Seq<FieldView>, operation: Operation) -> Option<Seq<ValueView>> {
    match operation {
        Operation::Insert { data } => match parsed_json(data@) {
            Some(Json::Object(members)) => Some(record_values(keys, members)),
            _ => None,
        },
        Operation::Query { params } => Some(param_values(keys, params@)),
        Operation::Update { params, .. } => Some(param_values(keys, params@)),
        Operation::Delete { params } => Some(param_values(keys, params@)),
    }
}

/// The key that an operation addresses.
pub open spec fn key_of(
    keys: Seq<FieldView>,
    operation: Operation,
    readings: Seq<FloatReading>,
) -> Option<KeyView> {
    match operation {
        Operation::Insert { data } => spec_build_pk_from_json(keys, data@, readings),
        Operation::Query { params } => spec_build_pk_from_params(keys, params@, readings),
        Operation::Update { params, .. } => spec_build_pk_from_params(keys, params@, readings),
        Operation::Delete { params } => spec_build_pk_from_params(keys, params@, readings),
    }
}

/// The step of a data operation once the float readings of its key are
/// known: the key is built and the record, or the range of records, is
/// asked for.
pub open spec fn keyed_post(
    engine: EngineView,
    db: Seq<char>,
    table: Seq<char>,
    operation: Operation,
    settings: TableSettings,
    readings: Seq<FloatReading>,
    step: Step,
) -> bool {
    match key_of(settings@.primary_keys, operation, readings) {
        None => step matches Step::Done(Err(e)) && if operation matches Operation::Insert { data }
            && parsed_json(data@) is None {
            e@ is InvalidStates
        } else {
            e@ is InvalidArguments
        },
        Some(key) => if !engine.has_db(db) {
            fails_with(step, ErrorView::NotFound(IdView::Database(db)))
        } else {
            match operation {
                Operation::Query { .. } => if !engine.instance(db).has_keyspace(table) {
                    fails_invalid_state(step)
                } else {
                    match key {
                        KeyView::Complete(bytes) => step matches Step::Ask(request, Pending::Fetch)
                            && data_get(request, db, table, bytes),
                        KeyView::Prefix(bytes) => step matches Step::Ask(request, Pending::Scan)
                            && data_scan(request, db, table, bytes),
                    }
                },
                Operation::Insert { data } => if !engine.instance(db).has_keyspace(table) {
                    fails_invalid_state(step)
                } else {
                    step matches Step::Ask(request, Pending::Finish) && data_put(
                        request,
                        db,
                        table,
                        key.bytes(),
                        data@,
                    )
                },
                Operation::Update { data, .. } => if key is Prefix {
                    step matches Step::Done(Err(e)) && e@ is InvalidArguments
                } else if !engine.instance(db).has_keyspace(table) {
                    fails_invalid_state(step)
                } else {
                    step matches Step::Ask(
                        request,
                        Pending::FetchForUpdate {
                            db: carried_db,
                            table: carried_table,
                            key: carried_key,
                            patch,
                            settings: carried,
                        },
                    ) && data_get(request, db, table, key.bytes()) && carried_db@ == db
                        && carried_table@ == table && carried_key@ == key.bytes() && patch@
                        == data@ && carried@ == settings@
                },
                Operation::Delete { .. } => if !engine.instance(db).has_keyspace(table) {
                    fails_invalid_state(step)
                } else if key is Prefix {
                    step matches Step::Done(Err(e)) && e@ is InvalidArguments
                } else {
                    step matches Step::Ask(
                        request,
                        Pending::FetchForDelete {
                            db: carried_db,
                            table: carried_table,
                            key: carried_key,
                        },
                    ) && data_get(request, db, table, key.bytes()) && carried_db@ == db
                        && carried_table@ == table && carried_key@ == key.bytes()
                },
            }
        },
    }
}

/// The step of a data operation once the settings of its table are known:
/// where a key field is a float, the host is asked how the key values read
/// as floats; otherwise the key is built at once.
pub open spec fn loaded_post(
    engine: EngineView,
    db: Seq<char>,
    table: Seq<char>,
    operation: Operation,
    settings: TableSettings,
    step: Step,
) -> bool {
    if has_float_key(settings@.primary_keys) {
        match key_values_of(settings@.primary_keys, operation) {
            Some(expected) => step matches Step::Ask(
                Request::ReadFloats { values },
                Pending::ReadFloats {
                    db: carried_db,
                    table: carried_table,
                    operation: carried,
                    settings: kept,
                },
            ) && values_view(values@) == expected && carried_db@ == db && carried_table@ == table
                && carried == operation && kept@ == settings@,
            None => keyed_post(engine, db, table, operation, settings, Seq::empty(), step),
        }
    } else {
        keyed_post(engine, db, table, operation, settings, Seq::empty(), step)
    }
}

/// The second step of a data operation.
pub open spec fn load_table_post(
    engine: EngineView,
    db: Seq<char>,
    table: Seq<char>,
    operation: Operation,
    reply: Reply,
    step: Step,
) -> bool {
    match reply {
        Reply::Value(None) => fails_with(
            step,
            ErrorView::NotFound(IdView::Table { db, name: table }),
        ),
        Reply::Value(Some(bytes)) => match spec_read_table(bytes@) {
            Some(read) => exists|settings: TableSettings|
                settings@ == read && #[trigger] loaded_post(
                    engine,
                    db,
                    table,
                    operation,
                    settings,
                    step,
                ),
            None => fails_invalid_state(step),
        },
        _ => fails_invalid_state(step),
    }
}

/// The step of a data operation that follows the float readings.
pub open spec fn read_floats_post(
    engine: EngineView,
    db: Seq<char>,
    table: Seq<char>,
    operation: Operation,
    settings: TableSettings,
    reply: Reply,
    step: Step,
) -> bool {
    match reply {
        Reply::Floats(readings) => keyed_post(
            engine,
            db,
            table,
            operation,
            settings,
            readings@,
            step,
        ),
        _ => fails_invalid_state(step),
    }
}

/// The last step of a point lookup: the record as text.
pub open spec fn fetch_post(reply: Reply, step: Step) -> bool {
    match reply {
        Reply::Value(Some(bytes)) => if valid_utf8(bytes@) {
            step matches Step::Done(Ok(Outcome::Text(text))) && text@ == decode_utf8(bytes@)
        } else {
            fails_invalid_state(step)
        },
        Reply::Value(None) => fails_with(step, ErrorView::NotFound(IdView::Data)),
        _ => fails_invalid_state(step),
    }
}

/// The values of the first `count` entries as texts, with a comma between
/// one and the next.
pub open spec fn joined_rows(entries: Seq<Entry>, count: int) -> Seq<char>
    decreases count,
{
    if count <= 0 {
        Seq::empty()
    } else if count == 1 {
        decode_utf8(entries[0].value@)
    } else {
        joined_rows(entries, count - 1) + seq![','] + decode_utf8(entries[count - 1].value@)
    }
}

/// Whether the value of every entry is UTF-8.
pub open spec fn all_text(entries: Seq<Entry>) -> bool {
    forall|i: int| 0 <= i < entries.len() ==> valid_utf8((#[trigger] entries[i]).value@)
}

/// The last step of a range scan: the records, in the order of the scan,
/// as the text of a JSON array.
pub open spec fn scan_post(reply: Reply, step: Step) -> bool {
    match reply {
        Reply::Entries(entries) => if all_text(entries@) {
            step matches Step::Done(Ok(Outcome::Text(text))) && text@ == seq!['['] + joined_rows(
                entries@,
                entries@.len() as int,
            ) + seq![']']
        } else {
            fails_invalid_state(step)
        },
        _ => fails_invalid_state(step),
    }
}

/// The step of an update that follows the reading of the record: the patch
/// is merged into it and the result is written back.
pub open spec fn fetch_for_update_post(
    db: Seq<char>,
    table: Seq<char>,
    key: Seq<u8>,
    patch: Seq<u8>,
    settings: TableView,
    reply: Reply,
    step: Step,
) -> bool {
    match reply {
        Reply::Value(Some(existing)) => match spec_merge(settings.primary_keys, existing@, patch) {
            Merge::Malformed => fails_invalid_state(step),
            Merge::NotObject => step matches Step::Done(Err(e)) && e@ is InvalidArguments,
            Merge::TouchesKey => step matches Step::Done(Err(e)) && e@ is InvalidArguments,
            Merge::Merged(members) => match printed_object(members) {
                Some(text) => step matches Step::Ask(request, Pending::Finish) && data_put(
                    request,
                    db,
                    table,
                    key,
                    text,
                ) && valid_utf8(text),
                None => fails_invalid_state(step),
            },
        },
        Reply::Value(None) => fails_with(step, ErrorView::NotFound(IdView::Data)),
        _ => fails_invalid_state(step),
    }
}

/// The step of a delete that follows the reading of the record.
pub open spec fn fetch_for_delete_post(
    db: Seq<char>,
    table: Seq<char>,
    key: Seq<u8>,
    reply: Reply,
    step: Step,
) -> bool {
    match reply {
        Reply::Value(Some(_)) => step matches Step::Ask(request, Pending::Finish) && data_delete(
            request,
            db,
            table,
            key,
        ),
        Reply::Value(None) => fails_with(step, ErrorView::NotFound(IdView::Data)),
        _ => fails_invalid_state(step),
    }
}

impl Engine {
    /// Looks up records by key.
    ///
    /// Fails with `NotFound` where the database is not registered, and with
    /// `InvalidStates` while the catalog cannot be read. Otherwise the step
    /// asks for the catalog entry of the table. The steps that follow build
    /// the key from `params`: a complete key is looked up, and the operation
    /// ends with the record or with `NotFound`; a prefix is scanned, and the
    /// operation ends with the records of the range as a JSON array.
    pub fn query_by_key(&self, db_name: &str, table_name: &str, params: Params) -> (step: Step)
        requires
            self@.wf(),
        ensures
            begins(self@, db_name@, table_name@, Operation::Query { params }, step),
    {
        self.read_table_entry(
            db_name,
            table_name,
            Pending::LoadTable {
                db: db_name.to_owned(),
                table: table_name.to_owned(),
                operation: Operation::Query { params },
            },
        )
    }

    /// Writes a record under the key that its key fields make, replacing
    /// what was there.
    ///
    /// Fails with `NotFound` where the database is not registered, and with
    /// `InvalidStates` while the catalog cannot be read. Otherwise the step
    /// asks for the catalog entry of the table. The steps that follow fail
    /// with `InvalidArguments` where the record lacks a key field, and write
    /// the record.
    pub fn insert(&self, db_name: &str, table_name: &str, data: Vec<u8>) -> (step: Step)
        requires
            self@.wf(),
        ensures
            begins(self@, db_name@, table_name@, Operation::Insert { data }, step),
    {
        self.read_table_entry(
            db_name,
            table_name,
            Pending::LoadTable {
                db: db_name.to_owned(),
                table: table_name.to_owned(),
                operation: Operation::Insert { data },
            },
        )
    }

    /// Merges the patch `data` into the record that `params` address.
    ///
    /// Fails with `NotFound` where the database is not registered, and with
    /// `InvalidStates` while the catalog cannot be read. Otherwise the step
    /// asks for the catalog entry of the table. The steps that follow fail
    /// with `InvalidArguments` where `params` make no complete key or the
    /// patch names a key field, and with `NotFound` where there is no such
    /// record; otherwise they write the merged record back.
    pub fn update(&self, db_name: &str, table_name: &str, data: Vec<u8>, params: Params) -> (step:
        Step)
        requires
            self@.wf(),
        ensures
            begins(self@, db_name@, table_name@, Operation::Update { data, params }, step),
    {
        self.read_table_entry(
            db_name,
            table_name,
            Pending::LoadTable {
                db: db_name.to_owned(),
                table: table_name.to_owned(),
                operation: Operation::Update { data, params },
            },
        )
    }

    /// Removes the record that `params` address.
    ///
    /// Fails with `NotFound` where the database is not registered, and with
    /// `InvalidStates` while the catalog cannot be read. Otherwise the step
    /// asks for the catalog entry of the table. The steps that follow fail
    /// with `InvalidArguments` where `params` make no complete key, and with
    /// `NotFound` where there is no such record; otherwise they remove it.
    pub fn delete(&self, db_name: &str, table_name: &str, params: Params) -> (step: Step)
        requires
            self@.wf(),
        ensures
            begins(self@, db_name@, table_name@, Operation::Delete { params }, step),
    {
        self.read_table_entry(
            db_name,
            table_name,
            Pending::LoadTable {
                db: db_name.to_owned(),
                table: table_name.to_owned(),
                operation: Operation::Delete { params },
            },
        )
    }

    /// Builds the key of a data operation and asks for the record, or the
    /// range of records, that it addresses.
    pub(crate) fn keyed(
        &self,
        db: String,
        table: String,
        operation: Operation,
        settings: TableSettings,
        readings: Vec<FloatReading>,
    ) -> (step: Step)
        requires
            self@.wf(),
        ensures
            keyed_post(self@, db@, table@, operation, settings, readings@, step),
    {
        let kept = settings.duplicate();
        let schema = SchemaHelper::new(settings);
        let built = match &operation {
            Operation::Insert { data } => schema.build_pk_from_json(data.as_slice(), &readings),
            Operation::Query { params } => schema.build_pk_from_params(params, &readings),
            Operation::Update { params, .. } => schema.build_pk_from_params(params, &readings),
            Operation::Delete { params } => schema.build_pk_from_params(params, &readings),
        };
        let key = match built {
            Ok(key) => key,
            Err(error) => {
                return Step::Done(Err(error));
            },
        };
        let i = match self.find(db.as_str()) {
            Some(i) => i,
            None => {
                return Step::Done(Err(ConstDBError::NotFound(Id::database(db.as_str()))));
            },
        };
        assert(self@.instances[i as int] == self.dbs@[i as int]@);
        let instance = &self.dbs[i];
        match operation {
            Operation::Query { .. } => {
                match instance.rocks_db_for_table(table.as_str()) {
                    Ok(_) => {},
                    Err(error) => {
                        return Step::Done(Err(error));
                    },
                }
                match key {
                    PrimaryKey::Complete(bytes) => Step::Ask(
                        Request::Get { db, table: Some(table), key: bytes },
                        Pending::Fetch,
                    ),
                    PrimaryKey::Prefix(bytes) => {
                        let until = build_upper_bound(bytes.as_slice());
                        Step::Ask(
                            Request::Scan { db, table: Some(table), from: bytes, until },
                            Pending::Scan,
                        )
                    },
                }
            },
            Operation::Insert { data } => {
                match instance.rocks_db_for_table(table.as_str()) {
                    Ok(_) => {},
                    Err(error) => {
                        return Step::Done(Err(error));
                    },
                }
                match key.complete() {
                    Ok(bytes) => Step::Ask(
                        Request::Put { db, table: Some(table), key: copy_bytes(bytes), value: data },
                        Pending::Finish,
                    ),
                    Err(error) => Step::Done(Err(error)),
                }
            },
            Operation::Update { data, .. } => {
                let bytes = match key.complete() {
                    Ok(bytes) => copy_bytes(bytes),
                    Err(error) => {
                        return Step::Done(Err(error));
                    },
                };
                match instance.rocks_db_for_table(table.as_str()) {
                    Ok(_) => {},
                    Err(error) => {
                        return Step::Done(Err(error));
                    },
                }
                let carried = copy_bytes(bytes.as_slice());
                Step::Ask(
                    Request::Get { db: db.clone(), table: Some(table.clone()), key: bytes },
                    Pending::FetchForUpdate { db, table, key: carried, patch: data, settings: kept },
                )
            },
            Operation::Delete { .. } => {
                match instance.rocks_db_for_table(table.as_str()) {
                    Ok(_) => {},
                    Err(error) => {
                        return Step::Done(Err(error));
                    },
                }
                let bytes = match key.complete() {
                    Ok(bytes) => copy_bytes(bytes),
                    Err(error) => {
                        return Step::Done(Err(error));
                    },
                };
                let carried = copy_bytes(bytes.as_slice());
                Step::Ask(
                    Request::Get { db: db.clone(), table: Some(table.clone()), key: bytes },
                    Pending::FetchForDelete { db, table, key: carried },
                )
            },
        }
    }

    /// Goes on with a data operation once the settings of its table are
    /// known.
    pub(crate) fn loaded(
        &self,
        db: String,
        table: String,
        operation: Operation,
        settings: TableSettings,
    ) -> (step: Step)
        requires
            self@.wf(),
        ensures
            loaded_post(self@, db@, table@, operation, settings, step),
    {
        let schema = SchemaHelper::new(settings.duplicate());
        if !schema.needs_readings() {
            return self.keyed(db, table, operation, settings, Vec::new());
        }
        let read = match &operation {
            Operation::Insert { data } => schema.key_values_from_json(data.as_slice()),
            Operation::Query { params } => Ok(schema.key_values_from_params(params)),
            Operation::Update { params, .. } => Ok(schema.key_values_from_params(params)),
            Operation::Delete { params } => Ok(schema.key_values_from_params(params)),
        };
        match read {
            Ok(values) => Step::Ask(
                Request::ReadFloats { values },
                Pending::ReadFloats { db, table, operation, settings },
            ),
            Err(_) => self.keyed(db, table, operation, settings, Vec::new()),
        }
    }

    /// Resumes a data operation with the catalog entry of its table.
    pub(crate) fn after_load_table(&self, db: String, table: String, operation: Operation, reply: Reply) -> (step:
        Step)
        requires
            self@.wf(),
        ensures
            load_table_post(self@, db@, table@, operation, reply, step),
    {
        match reply {
            Reply::Value(None) => Step::Done(
                Err(ConstDBError::NotFound(Id::table(db.as_str(), table.as_str()))),
            ),
            Reply::Value(Some(bytes)) => match TableSettings::parse_from_bytes(bytes.as_slice()) {
                Ok(settings) => {
                    let ghost parsed = settings;
                    let step = self.loaded(db, table, operation, settings);
                    assert(loaded_post(self@, db@, table@, operation, parsed, step));
                    step
                },
                Err(error) => Step::Done(Err(error)),
            },
            other => refuse(other),
        }
    }

    /// Resumes a data operation with the float readings of its key values.
    pub(crate) fn after_read_floats(
        &self,
        db: String,
        table: String,
        operation: Operation,
        settings: TableSettings,
        reply: Reply,
    ) -> (step: Step)
        requires
            self@.wf(),
        ensures
            read_floats_post(self@, db@, table@, operation, settings, reply, step),
    {
        match reply {
            Reply::Floats(readings) => self.keyed(db, table, operation, settings, readings),
            other => refuse(other),
        }
    }

    /// Ends a point lookup with the record that was read.
    pub(crate) fn after_fetch(reply: Reply) -> (step: Step)
        ensures
            fetch_post(reply, step),
    {
        match reply {
            Reply::Value(Some(bytes)) => match string_from_utf8(bytes) {
                Some(text) => Step::Done(Ok(Outcome::Text(text))),
                None => Step::Done(
                    Err(ConstDBError::InvalidStates(String::from_str("the record is not UTF-8"))),
                ),
            },
            Reply::Value(None) => Step::Done(Err(ConstDBError::NotFound(Id::Data))),
            other => refuse(other),
        }
    }

    /// Ends a range scan with the records that were read.
    pub(crate) fn after_scan(reply: Reply) -> (step: Step)
        ensures
            scan_post(reply, step),
    {
        match reply {
            Reply::Entries(entries) => {
                proof {
                    reveal_strlit("[");
                    reveal_strlit("]");
                    reveal_strlit(",");
                }
                let mut text = String::from_str("[");
                assert(text@ =~= seq!['['] + joined_rows(entries@, 0));
                let mut i: usize = 0;
                while i < entries.len()
                    invariant
                        i <= entries.len(),
                        reply == Reply::Entries(entries),
                        ","@ == seq![','],
                        forall|j: int| 0 <= j < i ==> valid_utf8((#[trigger] entries@[j]).value@),
                        text@ == seq!['['] + joined_rows(entries@, i as int),
                    decreases entries.len() - i,
                {
                    let row = match string_from_utf8(copy_bytes(entries[i].value.as_slice())) {
                        Some(row) => row,
                        None => {
                            return Step::Done(
                                Err(
                                    ConstDBError::InvalidStates(
                                        String::from_str("the record is not UTF-8"),
                                    ),
                                ),
                            );
                        },
                    };
                    if i > 0 {
                        text.append(",");
                    }
                    text.append(row.as_str());
                    i = i + 1;
                    assert(text@ =~= seq!['['] + joined_rows(entries@, i as int));
                }
                text.append("]");
                assert("]"@ =~= seq![']']);
                Step::Done(Ok(Outcome::Text(text)))
            },
            other => refuse(other),
        }
    }

    /// Resumes an update with the record that was read.
    pub(crate) fn after_fetch_for_update(
        db: String,
        table: String,
        key: Vec<u8>,
        patch: Vec<u8>,
        settings: TableSettings,
        reply: Reply,
    ) -> (step: Step)
        ensures
            fetch_for_update_post(db@, table@, key@, patch@, settings@, reply, step),
    {
        match reply {
            Reply::Value(Some(existing)) => {
                let schema = SchemaHelper::new(settings);
                match schema.update(existing.as_slice(), patch.as_slice()) {
                    Ok(merged) => Step::Ask(
                        Request::Put { db, table: Some(table), key, value: merged },
                        Pending::Finish,
                    ),
                    Err(error) => Step::Done(Err(error)),
                }
            },
            Reply::Value(None) => Step::Done(Err(ConstDBError::NotFound(Id::Data))),
            other => refuse(other),
        }
    }

    /// Resumes a delete with the record that was read.
    pub(crate) fn after_fetch_for_delete(db: String, table: String, key: Vec<u8>, reply: Reply) -> (step:
        Step)
        ensures
            fetch_for_delete_post(db@, table@, key@, reply, step),
    {
        match reply {
            Reply::Value(Some(_)) => Step::Ask(
                Request::Delete { db, table: Some(table), key },
                Pending::Finish,
            ),
            Reply::Value(None) => Step::Done(Err(ConstDBError::NotFound(Id::Data))),
            other => refuse(other),
        }
    }
}

} // verus!
