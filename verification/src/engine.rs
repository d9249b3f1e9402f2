//! The engine: the registry of databases, and the steps of every operation.

use vstd::prelude::*;
use vstd::string::*;
use vstd::utf8::*;
use crate::db::DBInstance;
use crate::db::distinct;
use crate::db::InstanceView;
use crate::engine::data::fetch_for_delete_post;
use crate::engine::data::fetch_for_update_post;
use crate::engine::data::fetch_post;
use crate::engine::data::load_table_post;
use crate::engine::data::read_floats_post;
use crate::engine::data::scan_post;
use crate::engine::databases::open_created_post;
use crate::engine::databases::record_database_post;
use crate::engine::startup::discover_post;
use crate::engine::startup::open_databases_post;
use crate::engine::startup::open_system_post;
use crate::engine::tables::check_new_table_post;
use crate::engine::tables::check_old_table_post;
use crate::engine::tables::create_keyspace_post;
use crate::engine::tables::drop_keyspace_post;
use crate::engine::tables::got_table_post;
use crate::engine::tables::listed_tables_post;
use crate::engine::tables::open_for_table_post;
use crate::engine::tables::table_found_post;
use crate::errors::ConstDBError;
use crate::errors::ErrorView;
use crate::ids::Id;
use crate::ids::IdView;
use crate::model::DBSettings;
use crate::params::same_text;
use crate::protocol::option_bytes;
use crate::protocol::Outcome;
use crate::protocol::Pending;
use crate::protocol::Reply;
use crate::protocol::Request;
use crate::protocol::Step;
use crate::protocol::store_failed;
use crate::protocol::unexpected_reply;
use crate::range::spec_upper_bound;
use crate::system_db::SystemKeys;
use crate::system_db::SystemKeyView;

pub mod data;
pub mod databases;
pub mod startup;
pub mod tables;

verus! {

/// Where the engine keeps its databases.
#[derive(Debug, Clone, PartialEq, Eq)]
pub struct Settings {
    pub root: String,
}

/// The catalog of databases and tables, and the rules of every operation on
/// them.
#[derive(Debug)]
pub struct Engine {
    dbs: Vec<DBInstance>,
    settings: Settings,
}

/// The mathematical value of an [`Engine`]: its root directory and the
/// databases it has registered, in the order in which it registered them.
pub struct EngineView {
    pub root: Seq<char>,
    pub instances: Seq<InstanceView>,
}

/// The name of the database that holds the catalog.
pub open spec fn system_name() -> Seq<char> {
    "system"@
}

impl EngineView {
    /// Whether a database of this name is registered.
    pub open spec fn has_db(self, name: Seq<char>) -> bool {
        exists|i: int| 0 <= i < self.instances.len() && (#[trigger] self.instances[i]).name == name
    }

    /// The place of the database `name` among the registered ones.
    pub open spec fn position(self, name: Seq<char>) -> int {
        choose|i: int| 0 <= i < self.instances.len() && (#[trigger] self.instances[i]).name == name
    }

    /// What is known of the store of the database `name`.
    pub open spec fn instance(self, name: Seq<char>) -> InstanceView {
        self.instances[self.position(name)]
    }

    /// The names of the registered databases, in order.
    pub open spec fn names(self) -> Seq<Seq<char>> {
        Seq::new(self.instances.len(), |i: int| self.instances[i].name)
    }

    /// No database is registered twice, and no keyspace is listed twice.
    pub open spec fn wf(self) -> bool {
        &&& distinct(self.names())
        &&& forall|i: int| 0 <= i < self.instances.len() ==> (#[trigger] self.instances[i]).wf()
    }

    /// The directory of the database `name`.
    pub open spec fn path_of(self, name: Seq<char>) -> Seq<char> {
        self.root + "/"@ + name
    }

    /// Whether the catalog can be read and written.
    pub open spec fn catalog_ready(self) -> bool {
        self.has_db(system_name()) && self.instance(system_name()).is_open()
    }

    /// The engine with one more database, registered last.
    pub open spec fn with(self, instance: InstanceView) -> EngineView {
        EngineView { root: self.root, instances: self.instances.push(instance) }
    }

    /// The engine without the database `name`.
    pub open spec fn without(self, name: Seq<char>) -> EngineView {
        EngineView { root: self.root, instances: self.instances.remove(self.position(name)) }
    }

    /// The engine with `instance` in the place of the database of its name.
    pub open spec fn replacing(self, instance: InstanceView) -> EngineView {
        EngineView {
            root: self.root,
            instances: self.instances.update(self.position(instance.name), instance),
        }
    }
}

/// A request to read the catalog entry `key`.
pub open spec fn catalog_get(request: Request, key: SystemKeyView) -> bool {
    request matches Request::Get { db, table, key: bytes } && db@ == system_name() && table is None
        && bytes@ == key.bytes()
}

/// A request to write `value` as the catalog entry `key`.
pub open spec fn catalog_put(request: Request, key: SystemKeyView, value: Seq<u8>) -> bool {
    request matches Request::Put { db, table, key: bytes, value: stored } && db@ == system_name()
        && table is None && bytes@ == key.bytes() && stored@ == value
}

/// A request to remove the catalog entry `key`.
pub open spec fn catalog_delete(request: Request, key: SystemKeyView) -> bool {
    request matches Request::Delete { db, table, key: bytes } && db@ == system_name()
        && table is None && bytes@ == key.bytes()
}

/// A request to read every catalog entry whose key begins with `prefix`.
pub open spec fn catalog_scan(request: Request, prefix: SystemKeyView) -> bool {
    request matches Request::Scan { db, table, from, until } && db@ == system_name()
        && table is None && from@ == prefix.bytes() && option_bytes(until)
        == spec_upper_bound(prefix.bytes())
}

/// A request to open the store of the database `name` of `engine`.
pub open spec fn open_request(request: Request, engine: EngineView, name: Seq<char>, make: bool) -> bool {
    request matches Request::OpenStore { db, path, create } && db@ == name && path@
        == engine.path_of(name) && create == make
}

/// The step ends the operation with an `InvalidStates` error.
pub open spec fn fails_invalid_state(step: Step) -> bool {
    step matches Step::Done(Err(e)) && e@ is InvalidStates
}

/// The step ends the operation with this error.
pub open spec fn fails_with(step: Step, error: ErrorView) -> bool {
    step matches Step::Done(Err(e)) && e@ == error
}

impl View for Engine {
    type V = EngineView;

    closed spec fn view(&self) -> EngineView {
        EngineView {
            root: self.settings.root@,
            instances: Seq::new(self.dbs@.len(), |i: int| self.dbs@[i]@),
        }
    }
}

/// The last step of an operation that ends when the host has done its work.
pub open spec fn finish_post(reply: Reply, step: Step) -> bool {
    if reply is Done {
        step matches Step::Done(Ok(Outcome::Unit))
    } else {
        fails_invalid_state(step)
    }
}

/// Ends an operation on a reply that does not let it go on.
pub(crate) fn refuse(reply: Reply) -> (step: Step)
    ensures
        fails_invalid_state(step),
{
    match reply {
        Reply::Failed(detail) => Step::Done(Err(store_failed(detail.as_str()))),
        _ => Step::Done(Err(unexpected_reply())),
    }
}

/// The first step of an operation that begins by reading the catalog entry
/// of a table of a registered database.
pub open spec fn reads_table_entry(
    engine: EngineView,
    db: Seq<char>,
    table: Seq<char>,
    step: Step,
) -> bool {
    if !engine.has_db(db) {
        fails_with(step, ErrorView::NotFound(IdView::Database(db)))
    } else if !engine.catalog_ready() {
        fails_invalid_state(step)
    } else {
        step matches Step::Ask(request, _) && catalog_get(
            request,
            SystemKeyView::TableMetaKey { db, table },
        )
    }
}

/// What resuming an operation does: how the reply to the request of the
/// pending step changes the engine, and which step comes next.
pub open spec fn resumed(
    before: EngineView,
    pending: Pending,
    reply: Reply,
    after: EngineView,
    step: Step,
) -> bool {
    match pending {
        Pending::OpenSystem => open_system_post(before, reply, after, step),
        Pending::Discover => discover_post(before, reply, after, step),
        Pending::OpenDatabases { names, next } => open_databases_post(
            before,
            names@,
            next as int,
            reply,
            after,
            step,
        ),
        Pending::OpenCreated { name } => open_created_post(before, name@, reply, after, step),
        Pending::RecordDatabase { name } => after == before && record_database_post(
            name@,
            reply,
            step,
        ),
        Pending::Finish => after == before && finish_post(reply, step),
        Pending::TableExists => after == before && table_found_post(reply, step),
        Pending::GetTable { db, table } => after == before && got_table_post(
            db@,
            table@,
            reply,
            step,
        ),
        Pending::ListTables => after == before && listed_tables_post(reply, step),
        Pending::CheckNewTable { db, settings } => after == before && check_new_table_post(
            before,
            db@,
            settings@,
            reply,
            step,
        ),
        Pending::OpenForTable { db, settings } => open_for_table_post(
            before,
            db@,
            settings@,
            reply,
            after,
            step,
        ),
        Pending::CreateKeyspace { db, settings } => create_keyspace_post(
            before,
            db@,
            settings@,
            reply,
            after,
            step,
        ),
        Pending::CheckOldTable { db, table } => after == before && check_old_table_post(
            before,
            db@,
            table@,
            reply,
            step,
        ),
        Pending::DropKeyspace { db, table } => drop_keyspace_post(
            before,
            db@,
            table@,
            reply,
            after,
            step,
        ),
        Pending::LoadTable { db, table, operation } => after == before && load_table_post(
            before,
            db@,
            table@,
            operation,
            reply,
            step,
        ),
        Pending::ReadFloats { db, table, operation, settings } => after == before
            && read_floats_post(before, db@, table@, operation, settings, reply, step),
        Pending::Fetch => after == before && fetch_post(reply, step),
        Pending::Scan => after == before && scan_post(reply, step),
        Pending::FetchForUpdate { db, table, key, patch, settings } => after == before
            && fetch_for_update_post(db@, table@, key@, patch@, settings@, reply, step),
        Pending::FetchForDelete { db, table, key } => after == before && fetch_for_delete_post(
            db@,
            table@,
            key@,
            reply,
            step,
        ),
    }
}

/// Whether resuming from `pending` can change what the engine has
/// registered, so that it needs exclusive access to the engine.
pub open spec fn needs_exclusive(pending: Pending) -> bool {
    match pending {
        Pending::OpenSystem => true,
        Pending::OpenDatabases { .. } => true,
        Pending::OpenCreated { .. } => true,
        Pending::OpenForTable { .. } => true,
        Pending::CreateKeyspace { .. } => true,
        Pending::DropKeyspace { .. } => true,
        _ => false,
    }
}

/// Resuming a step that needs no exclusive access leaves the engine as it
/// was.
pub proof fn law_shared_steps_change_nothing(
    before: EngineView,
    pending: Pending,
    reply: Reply,
    after: EngineView,
    step: Step,
)
    requires
        !needs_exclusive(pending),
        resumed(before, pending, reply, after, step),
    ensures
        after == before,
{
}

impl Engine {
    /// The position of the database `name`, if it is registered.
    pub(crate) fn find(&self, name: &str) -> (found: Option<usize>)
        ensures
            match found {
                Some(i) => i < self@.instances.len() && self@.instances[i as int].name == name@
                    && self@.has_db(name@) && (self@.wf() ==> self@.position(name@) == i)
                    && forall|j: int| 0 <= j < i ==> self@.instances[j].name != name@,
                None => !self@.has_db(name@),
            },
    {
        let mut i: usize = 0;
        while i < self.dbs.len()
            invariant
                i <= self.dbs.len(),
                forall|j: int| 0 <= j < i ==> self.dbs@[j]@.name != name@,
            decreases self.dbs.len() - i,
        {
            if same_text(self.dbs[i].name(), name) {
                proof {
                    assert(self@.instances[i as int].name == name@);
                    if self@.wf() {
                        let p = self@.position(name@);
                        assert(self@.names()[p] == name@);
                        assert(self@.names()[i as int] == name@);
                    }
                }
                return Some(i);
            }
            i = i + 1;
        }
        assert forall|j: int| 0 <= j < self@.instances.len() implies (
        #[trigger] self@.instances[j]).name != name@ by {
            assert(self@.instances[j] == self.dbs@[j]@);
        }
        None
    }

    /// Whether the engine is in a state that its own operations leave it
    /// in: no database is registered twice, and no keyspace is listed twice.
    pub fn is_consistent(&self) -> (yes: bool)
        ensures
            yes == self@.wf(),
    {
        let mut i: usize = 0;
        while i < self.dbs.len()
            invariant
                i <= self.dbs.len(),
                self.dbs.len() == self@.instances.len(),
                forall|a: int, b: int|
                    0 <= a < b < i ==> self@.instances[a].name != self@.instances[b].name,
                forall|a: int| 0 <= a < i ==> (#[trigger] self@.instances[a]).wf(),
            decreases self.dbs.len() - i,
        {
            assert(self@.instances[i as int] == self.dbs@[i as int]@);
            if !self.dbs[i].is_consistent() {
                return false;
            }
            match self.find(self.dbs[i].name()) {
                Some(first) => {
                    if first != i {
                        assert(self@.names()[first as int] == self@.instances[first as int].name);
                        assert(self@.names()[i as int] == self@.instances[i as int].name);
                        return false;
                    }
                },
                None => {},
            }
            i = i + 1;
        }
        assert forall|a: int, b: int| 0 <= a < b < self@.names().len() implies self@.names()[a]
            != self@.names()[b] by {
            assert(self@.names()[a] == self@.instances[a].name);
            assert(self@.names()[b] == self@.instances[b].name);
        }
        true
    }

    /// Registers a database.
    pub(crate) fn register(&mut self, instance: DBInstance)
        requires
            old(self)@.wf(),
            instance@.wf(),
            !old(self)@.has_db(instance@.name),
        ensures
            final(self)@ == old(self)@.with(instance@),
            final(self)@.wf(),
    {
        let ghost before = self@;
        self.dbs.push(instance);
        proof {
            assert(self@.instances =~= before.instances.push(instance@));
            assert forall|i: int, j: int| 0 <= i < j < self@.names().len() implies self@.names()[i]
                != self@.names()[j] by {
                if j < before.instances.len() {
                    assert(before.names()[i] != before.names()[j]);
                } else {
                    assert(before.instances[i].name == self@.names()[i]);
                }
            }
        }
    }

    /// The directory of the database `name`: the root, a slash, the name.
    pub(crate) fn path_of(&self, name: &str) -> (path: String)
        ensures
            path@ == self@.path_of(name@),
    {
        let mut path = self.settings.root.clone();
        path.append("/");
        path.append(name);
        path
    }

    /// The request that opens the store of the database `name`.
    pub(crate) fn open(&self, name: &str, create: bool) -> (request: Request)
        ensures
            open_request(request, self@, name@, create),
    {
        Request::OpenStore { db: name.to_owned(), path: self.path_of(name), create }
    }

    /// Checks that the catalog can be read and written.
    pub(crate) fn system_db(&self) -> (ready: Result<(), ConstDBError>)
        requires
            self@.wf(),
        ensures
            self@.catalog_ready() ==> ready is Ok,
            !self@.catalog_ready() ==> (ready matches Err(e) && e@ is InvalidStates),
    {
        match self.find("system") {
            Some(i) => {
                assert(self@.instances[i as int] == self.dbs@[i as int]@);
                match self.dbs[i].rocks_db() {
                    Ok(_) => Ok(()),
                    Err(error) => Err(error),
                }
            },
            None => Err(ConstDBError::InvalidStates(String::from_str("cannot find [system] db"))),
        }
    }

    /// Starts an engine on the root directory of `settings`.
    ///
    /// The engine has no database yet. The step asks for the store of the
    /// system database to be opened, created if need be; the steps that
    /// follow register the system database and every database that the
    /// catalog lists.
    pub fn new(settings: Settings) -> (started: (Engine, Step))
        ensures
            started.0@ == (EngineView { root: settings.root@, instances: Seq::empty() }),
            started.0@.wf(),
            started.1 matches Step::Ask(request, Pending::OpenSystem) && open_request(
                request,
                started.0@,
                system_name(),
                true,
            ),
    {
        let engine = Engine { dbs: Vec::new(), settings };
        assert(engine@.instances =~= Seq::empty());
        let request = engine.open("system", true);
        (engine, Step::Ask(request, Pending::OpenSystem))
    }

    /// Whether a database of this name is registered.
    pub fn db_exists(&self, name: &str) -> (exists: bool)
        ensures
            exists == self@.has_db(name@),
    {
        self.find(name).is_some()
    }

    /// The registered databases, in the order in which they were registered.
    pub fn list_db(&self) -> (listed: Result<Vec<DBSettings>, ConstDBError>)
        ensures
            listed matches Ok(dbs) && dbs@.len() == self@.instances.len() && forall|i: int|
                0 <= i < dbs@.len() ==> (#[trigger] dbs@[i])@ == self@.instances[i].name,
    {
        let mut listed: Vec<DBSettings> = Vec::new();
        let mut i: usize = 0;
        while i < self.dbs.len()
            invariant
                i <= self.dbs.len(),
                listed@.len() == i,
                forall|j: int| 0 <= j < i ==> (#[trigger] listed@[j])@ == self.dbs@[j]@.name,
            decreases self.dbs.len() - i,
        {
            listed.push(DBSettings::new(self.dbs[i].name()));
            i = i + 1;
        }
        Ok(listed)
    }

    /// Ends an operation whose last request was answered.
    pub(crate) fn finish(reply: Reply) -> (step: Step)
        ensures
            finish_post(reply, step),
    {
        match reply {
            Reply::Done => Step::Done(Ok(Outcome::Unit)),
            other => refuse(other),
        }
    }

    /// The request that reads the catalog entry of a table.
    pub(crate) fn table_entry(db_name: &str, table_name: &str) -> (request: Request)
        ensures
            catalog_get(request, SystemKeyView::TableMetaKey { db: db_name@, table: table_name@ }),
    {
        let key = SystemKeys::table_meta_key(db_name, table_name).as_bytes();
        Request::Get { db: String::from_str("system"), table: None, key }
    }

    /// Begins an operation on a table of a registered database by reading
    /// the catalog entry of the table.
    pub(crate) fn read_table_entry(&self, db_name: &str, table_name: &str, pending: Pending) -> (step: Step)
        requires
            self@.wf(),
        ensures
            reads_table_entry(self@, db_name@, table_name@, step),
            step matches Step::Ask(_, carried) ==> carried == pending,
    {
        if !self.db_exists(db_name) {
            return Step::Done(Err(ConstDBError::NotFound(Id::database(db_name))));
        }
        match self.system_db() {
            Ok(_) => Step::Ask(Self::table_entry(db_name, table_name), pending),
            Err(error) => Step::Done(Err(error)),
        }
    }

    /// Resumes the operation that `pending` stands for with the reply of
    /// the host to its request.
    ///
    /// A reply that does not answer the request, and a `Failed` reply, end
    /// the operation with `InvalidStates`.
    pub fn resume(&mut self, pending: Pending, reply: Reply) -> (step: Step)
        requires
            old(self)@.wf(),
        ensures
            final(self)@.wf(),
            resumed(old(self)@, pending, reply, final(self)@, step),
    {
        match pending {
            Pending::OpenSystem => self.after_open_system(reply),
            Pending::Discover => self.after_discover(reply),
            Pending::OpenDatabases { names, next } => self.after_open_databases(names, next, reply),
            Pending::OpenCreated { name } => self.after_open_created(name, reply),
            Pending::RecordDatabase { name } => Self::after_record_database(name, reply),
            Pending::Finish => Self::finish(reply),
            Pending::TableExists => Self::after_table_exists(reply),
            Pending::GetTable { db, table } => Self::after_get_table(db, table, reply),
            Pending::ListTables => Self::after_list_tables(reply),
            Pending::CheckNewTable { db, settings } => self.after_check_new_table(
                db,
                settings,
                reply,
            ),
            Pending::OpenForTable { db, settings } => self.after_open_for_table(db, settings, reply),
            Pending::CreateKeyspace { db, settings } => self.after_create_keyspace(
                db,
                settings,
                reply,
            ),
            Pending::CheckOldTable { db, table } => self.after_check_old_table(db, table, reply),
            Pending::DropKeyspace { db, table } => self.after_drop_keyspace(db, table, reply),
            Pending::LoadTable { db, table, operation } => self.after_load_table(
                db,
                table,
                operation,
                reply,
            ),
            Pending::ReadFloats { db, table, operation, settings } => self.after_read_floats(
                db,
                table,
                operation,
                settings,
                reply,
            ),
            Pending::Fetch => Self::after_fetch(reply),
            Pending::Scan => Self::after_scan(reply),
            Pending::FetchForUpdate { db, table, key, patch, settings } => {
                Self::after_fetch_for_update(db, table, key, patch, settings, reply)
            },
            Pending::FetchForDelete { db, table, key } => Self::after_fetch_for_delete(
                db,
                table,
                key,
                reply,
            ),
        }
    }

    /// Resumes an operation under shared access to the engine.
    ///
    /// Every data operation and every read of the catalog can be resumed
    /// this way, from its first step to its last. A step that needs
    /// exclusive access ends the operation with `InvalidStates`.
    pub fn resume_shared(&self, pending: Pending, reply: Reply) -> (step: Step)
        requires
            self@.wf(),
        ensures
            needs_exclusive(pending) ==> fails_invalid_state(step),
            !needs_exclusive(pending) ==> resumed(self@, pending, reply, self@, step),
    {
        match pending {
            Pending::Discover => self.after_discover(reply),
            Pending::RecordDatabase { name } => Self::after_record_database(name, reply),
            Pending::Finish => Self::finish(reply),
            Pending::TableExists => Self::after_table_exists(reply),
            Pending::GetTable { db, table } => Self::after_get_table(db, table, reply),
            Pending::ListTables => Self::after_list_tables(reply),
            Pending::CheckNewTable { db, settings } => self.after_check_new_table(
                db,
                settings,
                reply,
            ),
            Pending::CheckOldTable { db, table } => self.after_check_old_table(db, table, reply),
            Pending::LoadTable { db, table, operation } => self.after_load_table(
                db,
                table,
                operation,
                reply,
            ),
            Pending::ReadFloats { db, table, operation, settings } => self.after_read_floats(
                db,
                table,
                operation,
                settings,
                reply,
            ),
            Pending::Fetch => Self::after_fetch(reply),
            Pending::Scan => Self::after_scan(reply),
            Pending::FetchForUpdate { db, table, key, patch, settings } => {
                Self::after_fetch_for_update(db, table, key, patch, settings, reply)
            },
            Pending::FetchForDelete { db, table, key } => Self::after_fetch_for_delete(
                db,
                table,
                key,
                reply,
            ),
            _ => Step::Done(Err(unexpected_reply())),
        }
    }
}

} // verus!
