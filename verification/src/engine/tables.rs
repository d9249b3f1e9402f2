//! The catalog of tables: reading, listing, creating and deleting.

use vstd::prelude::*;
use vstd::string::*;
use vstd::utf8::*;
use crate::db::InstanceView;
use crate::engine::catalog_delete;
use crate::engine::catalog_get;
use crate::engine::catalog_put;
use crate::engine::catalog_scan;
use crate::engine::Engine;
use crate::engine::EngineView;
use crate::engine::fails_invalid_state;
use crate::engine::fails_with;
use crate::engine::reads_table_entry;
use crate::engine::refuse;
use crate::engine::startup::opened_with;
use crate::errors::ConstDBError;
use crate::errors::ErrorView;
use crate::ids::Id;
use crate::ids::IdView;
use crate::model::TableSettings;
use crate::model::TableView;
use crate::protocol::Entry;
use crate::protocol::Outcome;
use crate::protocol::Pending;
use crate::protocol::Reply;
use crate::protocol::Request;
use crate::protocol::Step;
use crate::protocol::texts;
use crate::range::build_upper_bound;
use crate::records::law_table_record_round_trip;
use crate::records::spec_read_table;
use crate::records::spec_write_table;
use crate::records::storable;
use crate::system_db::law_table_key_round_trip;
use crate::system_db::spec_parse_table_meta_key;
use crate::system_db::SystemKeys;
use crate::system_db::SystemKeyView;
use crate::system_db::valid_database_name;

verus! {

/// The tables of a list, in order.
pub open spec fn tables_view(tables: Seq<TableSettings>) -> Seq<TableView> {
    Seq::new(tables.len(), |i: int| tables[i]@)
}

/// Whether an entry of the catalog holds a table under the key of a table
/// entry.
pub open spec fn holds_table(entry: Entry) -> bool {
    spec_parse_table_meta_key(entry.key@) is Some && spec_read_table(entry.value@) is Some
}

/// The tables that the entries of a catalog scan hold, or `None` where an
/// entry does not hold a table.
pub open spec fn listed(entries: Seq<Entry>) -> Option<Seq<TableView>> {
    if forall|i: int| 0 <= i < entries.len() ==> holds_table(#[trigger] entries[i]) {
        Some(Seq::new(entries.len(), |i: int| spec_read_table(entries[i].value@)->0))
    } else {
        None
    }
}

/// The same store with the keyspace of `table` added, if the store is open.
pub open spec fn keyspace_added(before: InstanceView, after: InstanceView, table: Seq<char>) -> bool {
    &&& after.name == before.name
    &&& after.root == before.root
    &&& after.is_open() == before.is_open()
    &&& after.wf()
    &&& forall|name: Seq<char>|
        after.has_keyspace(name) <==> before.has_keyspace(name) || (before.is_open() && name
            == table)
}

/// The same store without the keyspace of `table`.
pub open spec fn keyspace_removed(before: InstanceView, after: InstanceView, table: Seq<char>) -> bool {
    &&& after.name == before.name
    &&& after.root == before.root
    &&& after.is_open() == before.is_open()
    &&& after.wf()
    &&& forall|name: Seq<char>|
        after.has_keyspace(name) <==> before.has_keyspace(name) && name != table
}

/// The first step of `table_exists`.
pub open spec fn table_exists_post(
    engine: EngineView,
    db: Seq<char>,
    table: Seq<char>,
    step: Step,
) -> bool {
    if !engine.catalog_ready() {
        fails_invalid_state(step)
    } else {
        step matches Step::Ask(request, Pending::TableExists) && catalog_get(
            request,
            SystemKeyView::TableMetaKey { db, table },
        )
    }
}

/// The last step of `table_exists`.
pub open spec fn table_found_post(reply: Reply, step: Step) -> bool {
    match reply {
        Reply::Value(value) => step matches Step::Done(Ok(Outcome::Flag(found))) && found
            == value is Some,
        _ => fails_invalid_state(step),
    }
}

/// The first step of `get_table`.
pub open spec fn get_table_post(
    engine: EngineView,
    db: Seq<char>,
    table: Seq<char>,
    step: Step,
) -> bool {
    &&& reads_table_entry(engine, db, table, step)
    &&& step matches Step::Ask(_, pending) ==> (pending matches Pending::GetTable {
        db: carried_db,
        table: carried_table,
    } && carried_db@ == db && carried_table@ == table)
}

/// The last step of `get_table`.
pub open spec fn got_table_post(
    db: Seq<char>,
    table: Seq<char>,
    reply: Reply,
    step: Step,
) -> bool {
    match reply {
        Reply::Value(None) => fails_with(
            step,
            ErrorView::NotFound(IdView::Table { db, name: table }),
        ),
        Reply::Value(Some(bytes)) => match spec_read_table(bytes@) {
            Some(read) => step matches Step::Done(Ok(Outcome::Table(settings))) && settings@
                == read,
            None => fails_invalid_state(step),
        },
        _ => fails_invalid_state(step),
    }
}

/// The first step of `list_table`.
pub open spec fn list_table_post(engine: EngineView, db: Seq<char>, step: Step) -> bool {
    if !engine.has_db(db) {
        fails_with(step, ErrorView::NotFound(IdView::Database(db)))
    } else if !engine.catalog_ready() {
        fails_invalid_state(step)
    } else {
        step matches Step::Ask(request, Pending::ListTables) && catalog_scan(
            request,
            SystemKeyView::TableMetaPrefix { db },
        )
    }
}

/// The last step of `list_table`.
pub open spec fn listed_tables_post(reply: Reply, step: Step) -> bool {
    match reply {
        Reply::Entries(entries) => match listed(entries@) {
            Some(found) => step matches Step::Done(Ok(Outcome::Tables(tables))) && tables_view(
                tables@,
            ) == found,
            None => fails_invalid_state(step),
        },
        _ => fails_invalid_state(step),
    }
}

/// The first step of `create_table`.
pub open spec fn create_table_post(
    engine: EngineView,
    db: Seq<char>,
    input: TableView,
    step: Step,
) -> bool {
    &&& reads_table_entry(engine, db, input.name, step)
    &&& step matches Step::Ask(_, pending) ==> (pending matches Pending::CheckNewTable {
        db: carried_db,
        settings,
    } && carried_db@ == db && settings@ == input)
}

/// The step that makes the keyspace of a new table: the store is opened
/// first if it is not open.
pub open spec fn makes_keyspace(
    engine: EngineView,
    db: Seq<char>,
    input: TableView,
    step: Step,
) -> bool {
    if !engine.has_db(db) {
        fails_with(step, ErrorView::NotFound(IdView::Database(db)))
    } else if !engine.instance(db).is_open() {
        step matches Step::Ask(
            Request::OpenStore { db: name, path, create },
            Pending::OpenForTable { db: carried_db, settings },
        ) && name@ == db && path@ == engine.instance(db).root && create && carried_db@ == db
            && settings@ == input
    } else if engine.instance(db).has_keyspace(input.name) {
        fails_with(step, ErrorView::AlreadyExists(IdView::Table { db, name: input.name }))
    } else {
        step matches Step::Ask(
            Request::CreateKeyspace { db: name, table },
            Pending::CreateKeyspace { db: carried_db, settings },
        ) && name@ == db && table@ == input.name && carried_db@ == db && settings@ == input
    }
}

/// The second step of `create_table`.
pub open spec fn check_new_table_post(
    engine: EngineView,
    db: Seq<char>,
    input: TableView,
    reply: Reply,
    step: Step,
) -> bool {
    match reply {
        Reply::Value(Some(_)) => fails_with(
            step,
            ErrorView::AlreadyExists(IdView::Table { db, name: input.name }),
        ),
        Reply::Value(None) => makes_keyspace(engine, db, input, step),
        _ => fails_invalid_state(step),
    }
}

/// The step of `create_table` that follows the opening of the store.
pub open spec fn open_for_table_post(
    before: EngineView,
    db: Seq<char>,
    input: TableView,
    reply: Reply,
    after: EngineView,
    step: Step,
) -> bool {
    match reply {
        Reply::Opened { tables } => if before.has_db(db) {
            &&& exists|instance: InstanceView|
                after == before.replacing(instance) && #[trigger] opened_with(
                    instance,
                    db,
                    before.instance(db).root,
                    texts(tables@),
                )
            &&& makes_keyspace(after, db, input, step)
        } else {
            after == before && fails_with(step, ErrorView::NotFound(IdView::Database(db)))
        },
        _ => after == before && fails_invalid_state(step),
    }
}

/// The step of `create_table` that follows the making of the keyspace: the
/// keyspace is recorded and the catalog entry of the table is written.
pub open spec fn create_keyspace_post(
    before: EngineView,
    db: Seq<char>,
    input: TableView,
    reply: Reply,
    after: EngineView,
    step: Step,
) -> bool {
    if !(reply is Done) {
        after == before && fails_invalid_state(step)
    } else if !before.has_db(db) {
        after == before && fails_with(step, ErrorView::NotFound(IdView::Database(db)))
    } else {
        &&& exists|instance: InstanceView|
            after == before.replacing(instance) && #[trigger] keyspace_added(
                before.instance(db),
                instance,
                input.name,
            )
        &&& if !after.catalog_ready() || !storable(input) {
            fails_invalid_state(step)
        } else {
            step matches Step::Ask(request, Pending::Finish) && catalog_put(
                request,
                SystemKeyView::TableMetaKey { db, table: input.name },
                spec_write_table(input),
            )
        }
    }
}

/// The first step of `delete_table`.
pub open spec fn delete_table_post(
    engine: EngineView,
    db: Seq<char>,
    table: Seq<char>,
    step: Step,
) -> bool {
    &&& reads_table_entry(engine, db, table, step)
    &&& step matches Step::Ask(_, pending) ==> (pending matches Pending::CheckOldTable {
        db: carried_db,
        table: carried_table,
    } && carried_db@ == db && carried_table@ == table)
}

/// The second step of `delete_table`.
pub open spec fn check_old_table_post(
    engine: EngineView,
    db: Seq<char>,
    table: Seq<char>,
    reply: Reply,
    step: Step,
) -> bool {
    match reply {
        Reply::Value(Some(_)) => if !engine.has_db(db) {
            fails_with(step, ErrorView::NotFound(IdView::Database(db)))
        } else if !engine.instance(db).has_keyspace(table) {
            fails_with(step, ErrorView::NotFound(IdView::Table { db, name: table }))
        } else {
            step matches Step::Ask(
                Request::DropKeyspace { db: name, table: dropped },
                Pending::DropKeyspace { db: carried_db, table: carried_table },
            ) && name@ == db && dropped@ == table && carried_db@ == db && carried_table@ == table
        },
        Reply::Value(None) => fails_with(
            step,
            ErrorView::NotFound(IdView::Table { db, name: table }),
        ),
        _ => fails_invalid_state(step),
    }
}

/// The third step of `delete_table`: the keyspace is forgotten and the
/// catalog entry of the table is removed.
pub open spec fn drop_keyspace_post(
    before: EngineView,
    db: Seq<char>,
    table: Seq<char>,
    reply: Reply,
    after: EngineView,
    step: Step,
) -> bool {
    if !(reply is Done) {
        after == before && fails_invalid_state(step)
    } else if !before.has_db(db) {
        after == before && fails_with(step, ErrorView::NotFound(IdView::Database(db)))
    } else {
        &&& exists|instance: InstanceView|
            after == before.replacing(instance) && #[trigger] keyspace_removed(
                before.instance(db),
                instance,
                table,
            )
        &&& if !after.catalog_ready() {
            fails_invalid_state(step)
        } else {
            step matches Step::Ask(request, Pending::Finish) && catalog_delete(
                request,
                SystemKeyView::TableMetaKey { db, table },
            )
        }
    }
}

/// Replacing a database by one of the same name keeps the engine well
/// formed.
pub proof fn lemma_replacing_wf(before: EngineView, at: int, instance: InstanceView)
    requires
        before.wf(),
        0 <= at < before.instances.len(),
        instance.name == before.instances[at].name,
        instance.wf(),
    ensures
        before.position(instance.name) == at,
        before.replacing(instance).wf(),
        before.replacing(instance).instances == before.instances.update(at, instance),
        forall|name: Seq<char>| before.replacing(instance).has_db(name) <==> before.has_db(name),
{
    let found = before.position(instance.name);
    assert(before.names()[found] == instance.name);
    assert(before.names()[at] == instance.name);
    let after = before.replacing(instance);
    assert(after.names() =~= before.names());
    assert forall|name: Seq<char>| after.has_db(name) <==> before.has_db(name) by {
        if after.has_db(name) {
            let i = choose|i: int|
                0 <= i < after.instances.len() && (#[trigger] after.instances[i]).name == name;
            assert(before.instances[i].name == name);
        }
        if before.has_db(name) {
            let i = choose|i: int|
                0 <= i < before.instances.len() && (#[trigger] before.instances[i]).name == name;
            assert(after.instances[i].name == name);
        }
    }
}

/// Creating a table in a database that is not registered fails with
/// `NotFound`.
pub proof fn law_create_table_needs_database(
    engine: EngineView,
    db: Seq<char>,
    input: TableView,
    step: Step,
)
    requires
        !engine.has_db(db),
        create_table_post(engine, db, input, step),
    ensures
        fails_with(step, ErrorView::NotFound(IdView::Database(db))),
{
}

/// A scan that returns the catalog entries of these tables of a database,
/// and nothing else, lists every one of them.
pub proof fn law_listing_finds_every_table(
    entries: Seq<Entry>,
    db: Seq<char>,
    tables: Seq<TableView>,
)
    requires
        valid_database_name(db),
        entries.len() == tables.len(),
        forall|i: int| 0 <= i < tables.len() ==> storable(#[trigger] tables[i]),
        forall|i: int|
            0 <= i < entries.len() ==> (#[trigger] entries[i]).key@
                == (SystemKeyView::TableMetaKey { db, table: tables[i].name }).bytes()
                && entries[i].value@ == spec_write_table(tables[i]),
    ensures
        listed(entries) == Some(tables),
{
    assert forall|i: int| 0 <= i < entries.len() implies holds_table(#[trigger] entries[i])
        && spec_read_table(entries[i].value@) == Some(tables[i]) by {
        law_table_key_round_trip(db, tables[i].name);
        law_table_record_round_trip(tables[i]);
    }
    assert(listed(entries)->0 =~= tables);
}

impl Engine {
    /// Tells whether the catalog lists a table.
    ///
    /// Fails with `InvalidStates` while the catalog cannot be read.
    /// Otherwise the step asks for the catalog entry of the table; the
    /// operation ends with `Flag`, which tells whether there is one.
    pub fn table_exists(&self, db: &str, table: &str) -> (step: Step)
        requires
            self@.wf(),
        ensures
            table_exists_post(self@, db@, table@, step),
    {
        match self.system_db() {
            Ok(_) => Step::Ask(Self::table_entry(db, table), Pending::TableExists),
            Err(error) => Step::Done(Err(error)),
        }
    }

    /// Ends `table_exists` with the catalog entry that was read.
    pub(crate) fn after_table_exists(reply: Reply) -> (step: Step)
        ensures
            table_found_post(reply, step),
    {
        match reply {
            Reply::Value(value) => Step::Done(Ok(Outcome::Flag(value.is_some()))),
            other => refuse(other),
        }
    }

    /// Reads the settings of a table.
    ///
    /// Fails with `NotFound` where the database is not registered, and with
    /// `InvalidStates` while the catalog cannot be read. Otherwise the step
    /// asks for the catalog entry of the table; the operation ends with
    /// `Table`, or with `NotFound` where the catalog lists no such table.
    pub fn get_table(&self, db_name: &str, table_name: &str) -> (step: Step)
        requires
            self@.wf(),
        ensures
            get_table_post(self@, db_name@, table_name@, step),
    {
        self.read_table_entry(
            db_name,
            table_name,
            Pending::GetTable { db: db_name.to_owned(), table: table_name.to_owned() },
        )
    }

    /// Ends `get_table` with the catalog entry that was read.
    pub(crate) fn after_get_table(db: String, table: String, reply: Reply) -> (step: Step)
        ensures
            got_table_post(db@, table@, reply, step),
    {
        match reply {
            Reply::Value(None) => Step::Done(
                Err(ConstDBError::NotFound(Id::table(db.as_str(), table.as_str()))),
            ),
            Reply::Value(Some(bytes)) => match TableSettings::parse_from_bytes(bytes.as_slice()) {
                Ok(settings) => Step::Done(Ok(Outcome::Table(settings))),
                Err(error) => Step::Done(Err(error)),
            },
            other => refuse(other),
        }
    }

    /// Lists the tables of a database.
    ///
    /// Fails with `NotFound` where the database is not registered, and with
    /// `InvalidStates` while the catalog cannot be read. Otherwise the step
    /// asks for every catalog entry that begins with the table prefix of the
    /// database; the operation ends with `Tables`, or with `InvalidStates`
    /// at the first entry that does not hold a table.
    pub fn list_table(&self, db_name: &str) -> (step: Step)
        requires
            self@.wf(),
        ensures
            list_table_post(self@, db_name@, step),
    {
        if !self.db_exists(db_name) {
            return Step::Done(Err(ConstDBError::NotFound(Id::database(db_name))));
        }
        match self.system_db() {
            Ok(_) => {
                let prefix = SystemKeys::table_meta_prefix(db_name).as_bytes();
                let until = build_upper_bound(prefix.as_slice());
                Step::Ask(
                    Request::Scan { db: String::from_str("system"), table: None, from: prefix, until },
                    Pending::ListTables,
                )
            },
            Err(error) => Step::Done(Err(error)),
        }
    }

    /// Ends `list_table` with the catalog entries that were read.
    pub(crate) fn after_list_tables(reply: Reply) -> (step: Step)
        ensures
            listed_tables_post(reply, step),
    {
        match reply {
            Reply::Entries(entries) => {
                let mut tables: Vec<TableSettings> = Vec::new();
                let mut i: usize = 0;
                while i < entries.len()
                    invariant
                        i <= entries.len(),
                        tables@.len() == i,
                        reply == Reply::Entries(entries),
                        forall|j: int| 0 <= j < i ==> holds_table(#[trigger] entries@[j]),
                        forall|j: int|
                            0 <= j < i ==> Some((#[trigger] tables@[j])@) == spec_read_table(
                                entries@[j].value@,
                            ),
                    decreases entries.len() - i,
                {
                    match SystemKeys::parse_table_meta_key(entries[i].key.as_slice()) {
                        Ok(_) => {},
                        Err(error) => {
                            assert(!holds_table(entries@[i as int]));
                            return Step::Done(Err(error));
                        },
                    }
                    match TableSettings::parse_from_bytes(entries[i].value.as_slice()) {
                        Ok(settings) => {
                            tables.push(settings);
                        },
                        Err(error) => {
                            assert(!holds_table(entries@[i as int]));
                            return Step::Done(Err(error));
                        },
                    }
                    i = i + 1;
                }
                assert(tables_view(tables@) =~= listed(entries@)->0);
                Step::Done(Ok(Outcome::Tables(tables)))
            },
            other => refuse(other),
        }
    }

    /// Creates a table.
    ///
    /// Fails with `NotFound` where the database is not registered, and with
    /// `InvalidStates` while the catalog cannot be read. Otherwise the step
    /// asks for the catalog entry of the table; the steps that follow fail
    /// with `AlreadyExists` where there is one, make the keyspace of the
    /// table and write its catalog entry.
    pub fn create_table(&self, db_name: &str, input: &TableSettings) -> (step: Step)
        requires
            self@.wf(),
        ensures
            create_table_post(self@, db_name@, input@, step),
    {
        self.read_table_entry(
            db_name,
            input.name.as_str(),
            Pending::CheckNewTable { db: db_name.to_owned(), settings: input.duplicate() },
        )
    }

    /// Asks for the keyspace of a new table, or for the store to be opened
    /// first.
    pub(crate) fn make_keyspace(&self, db: String, settings: TableSettings) -> (step: Step)
        requires
            self@.wf(),
        ensures
            makes_keyspace(self@, db@, settings@, step),
    {
        let i = match self.find(db.as_str()) {
            Some(i) => i,
            None => {
                return Step::Done(Err(ConstDBError::NotFound(Id::database(db.as_str()))));
            },
        };
        assert(self@.instances[i as int] == self.dbs@[i as int]@);
        let instance = &self.dbs[i];
        if !instance.is_open() {
            return Step::Ask(instance.open_rocks_db(), Pending::OpenForTable { db, settings });
        }
        match instance.create_table(settings.name.as_str()) {
            Ok(request) => Step::Ask(request, Pending::CreateKeyspace { db, settings }),
            Err(error) => Step::Done(Err(error)),
        }
    }

    /// Resumes the creation of a table once the catalog was asked for it.
    pub(crate) fn after_check_new_table(&self, db: String, settings: TableSettings, reply: Reply) -> (step:
        Step)
        requires
            self@.wf(),
        ensures
            check_new_table_post(self@, db@, settings@, reply, step),
    {
        match reply {
            Reply::Value(Some(_)) => Step::Done(
                Err(ConstDBError::AlreadyExists(Id::table(db.as_str(), settings.name.as_str()))),
            ),
            Reply::Value(None) => self.make_keyspace(db, settings),
            other => refuse(other),
        }
    }

    /// Resumes the creation of a table once the store of its database is
    /// open.
    pub(crate) fn after_open_for_table(&mut self, db: String, settings: TableSettings, reply: Reply) -> (step:
        Step)
        requires
            old(self)@.wf(),
        ensures
            final(self)@.wf(),
            open_for_table_post(old(self)@, db@, settings@, reply, final(self)@, step),
    {
        match reply {
            Reply::Opened { tables } => {
                let i = match self.find(db.as_str()) {
                    Some(i) => i,
                    None => {
                        return Step::Done(Err(ConstDBError::NotFound(Id::database(db.as_str()))));
                    },
                };
                let ghost before = self@;
                assert(before.instances[i as int] == self.dbs@[i as int]@);
                self.dbs[i].opened(tables);
                proof {
                    let instance = self.dbs@[i as int]@;
                    lemma_replacing_wf(before, i as int, instance);
                    assert(self@.instances =~= before.instances.update(i as int, instance));
                    assert(self@ == before.replacing(instance));
                    assert(opened_with(instance, db@, before.instance(db@).root, texts(tables@)));
                }
                self.make_keyspace(db, settings)
            },
            other => refuse(other),
        }
    }

    /// Resumes the creation of a table once its keyspace is made.
    pub(crate) fn after_create_keyspace(&mut self, db: String, settings: TableSettings, reply: Reply) -> (step:
        Step)
        requires
            old(self)@.wf(),
        ensures
            final(self)@.wf(),
            create_keyspace_post(old(self)@, db@, settings@, reply, final(self)@, step),
    {
        match reply {
            Reply::Done => {
                let i = match self.find(db.as_str()) {
                    Some(i) => i,
                    None => {
                        return Step::Done(Err(ConstDBError::NotFound(Id::database(db.as_str()))));
                    },
                };
                let ghost before = self@;
                assert(before.instances[i as int] == self.dbs@[i as int]@);
                self.dbs[i].table_created(settings.name.as_str());
                proof {
                    let instance = self.dbs@[i as int]@;
                    lemma_replacing_wf(before, i as int, instance);
                    assert(self@.instances =~= before.instances.update(i as int, instance));
                    assert(self@ == before.replacing(instance));
                    assert(keyspace_added(before.instance(db@), instance, settings@.name));
                }
                match self.system_db() {
                    Ok(_) => {},
                    Err(error) => {
                        return Step::Done(Err(error));
                    },
                }
                let value = match settings.write_to_bytes() {
                    Ok(value) => value,
                    Err(error) => {
                        return Step::Done(Err(error));
                    },
                };
                let key = SystemKeys::table_meta_key(db.as_str(), settings.name.as_str()).as_bytes();
                Step::Ask(
                    Request::Put { db: String::from_str("system"), table: None, key, value },
                    Pending::Finish,
                )
            },
            other => refuse(other),
        }
    }

    /// Deletes a table.
    ///
    /// Fails with `NotFound` where the database is not registered, and with
    /// `InvalidStates` while the catalog cannot be read. Otherwise the step
    /// asks for the catalog entry of the table; the steps that follow fail
    /// with `NotFound` where there is none, remove the keyspace of the table
    /// and then its catalog entry.
    pub fn delete_table(&self, db_name: &str, table_name: &str) -> (step: Step)
        requires
            self@.wf(),
        ensures
            delete_table_post(self@, db_name@, table_name@, step),
    {
        self.read_table_entry(
            db_name,
            table_name,
            Pending::CheckOldTable { db: db_name.to_owned(), table: table_name.to_owned() },
        )
    }

    /// Resumes the deletion of a table once the catalog was asked for it.
    pub(crate) fn after_check_old_table(&self, db: String, table: String, reply: Reply) -> (step: Step)
        requires
            self@.wf(),
        ensures
            check_old_table_post(self@, db@, table@, reply, step),
    {
        match reply {
            Reply::Value(Some(_)) => {
                let i = match self.find(db.as_str()) {
                    Some(i) => i,
                    None => {
                        return Step::Done(Err(ConstDBError::NotFound(Id::database(db.as_str()))));
                    },
                };
                assert(self@.instances[i as int] == self.dbs@[i as int]@);
                match self.dbs[i].delete_table(table.as_str()) {
                    Ok(request) => Step::Ask(request, Pending::DropKeyspace { db, table }),
                    Err(error) => Step::Done(Err(error)),
                }
            },
            Reply::Value(None) => Step::Done(
                Err(ConstDBError::NotFound(Id::table(db.as_str(), table.as_str()))),
            ),
            other => refuse(other),
        }
    }

    /// Resumes the deletion of a table once its keyspace is removed.
    pub(crate) fn after_drop_keyspace(&mut self, db: String, table: String, reply: Reply) -> (step: Step)
        requires
            old(self)@.wf(),
        ensures
            final(self)@.wf(),
            drop_keyspace_post(old(self)@, db@, table@, reply, final(self)@, step),
    {
        match reply {
            Reply::Done => {
                let i = match self.find(db.as_str()) {
                    Some(i) => i,
                    None => {
                        return Step::Done(Err(ConstDBError::NotFound(Id::database(db.as_str()))));
                    },
                };
                let ghost before = self@;
                assert(before.instances[i as int] == self.dbs@[i as int]@);
                self.dbs[i].table_deleted(table.as_str());
                proof {
                    let instance = self.dbs@[i as int]@;
                    lemma_replacing_wf(before, i as int, instance);
                    assert(self@.instances =~= before.instances.update(i as int, instance));
                    assert(self@ == before.replacing(instance));
                    assert(keyspace_removed(before.instance(db@), instance, table@));
                }
                match self.system_db() {
                    Ok(_) => {},
                    Err(error) => {
                        return Step::Done(Err(error));
                    },
                }
                let key = SystemKeys::table_meta_key(db.as_str(), table.as_str()).as_bytes();
                Step::Ask(
                    Request::Delete { db: String::from_str("system"), table: None, key },
                    Pending::Finish,
                )
            },
            other => refuse(other),
        }
    }
}

/// A table is got back from the catalog as it was stored.
pub proof fn law_stored_table_is_got_back(
    db: Seq<char>,
    input: TableView,
    bytes: Vec<u8>,
    step: Step,
)
    requires
        storable(input),
        bytes@ == spec_write_table(input),
        got_table_post(db, input.name, Reply::Value(Some(bytes)), step),
    ensures
        step matches Step::Done(Ok(Outcome::Table(settings))) && settings@ == input,
{
    law_table_record_round_trip(input);
}

} // verus!
