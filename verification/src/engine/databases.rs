//! Creating and dropping databases.

use vstd::prelude::*;
use vstd::string::*;
use vstd::utf8::*;
use crate::db::lemma_remove_contains;
use crate::engine::catalog_put;
use crate::engine::Engine;
use crate::engine::EngineView;
use crate::engine::fails_invalid_state;
use crate::engine::fails_with;
use crate::engine::open_request;
use crate::engine::refuse;
use crate::engine::startup::registers;
use crate::errors::ConstDBError;
use crate::errors::ErrorView;
use crate::ids::Id;
use crate::ids::IdView;
use crate::model::DBSettings;
use crate::protocol::Outcome;
use crate::protocol::Pending;
use crate::protocol::Reply;
use crate::protocol::Request;
use crate::protocol::Step;
use crate::records::spec_write_text;
use crate::system_db::is_valid_database_name;
use crate::system_db::SystemKeys;
use crate::system_db::SystemKeyView;
use crate::system_db::valid_database_name;

verus! {

/// The first step of `create_db`.
pub open spec fn create_db_post(engine: EngineView, name: Seq<char>, step: Step) -> bool {
    if engine.has_db(name) {
        fails_with(step, ErrorView::AlreadyExists(IdView::Database(name)))
    } else if !valid_database_name(name) {
        step matches Step::Done(Err(e)) && e@ is InvalidArguments
    } else {
        step matches Step::Ask(request, Pending::OpenCreated { name: carried }) && open_request(
            request,
            engine,
            name,
            false,
        ) && carried@ == name
    }
}

/// The second step of `create_db`: the database is registered, then its
/// catalog entry is written.
pub open spec fn open_created_post(
    before: EngineView,
    name: Seq<char>,
    reply: Reply,
    after: EngineView,
    step: Step,
) -> bool {
    if !(reply is Opened || reply is Absent) {
        after == before && fails_invalid_state(step)
    } else if before.has_db(name) {
        after == before && fails_with(step, ErrorView::AlreadyExists(IdView::Database(name)))
    } else {
        &&& registers(before, name, reply, after)
        &&& if !after.catalog_ready() || encode_utf8(name).len() > u32::MAX {
            fails_invalid_state(step)
        } else {
            step matches Step::Ask(request, Pending::RecordDatabase { name: carried })
                && catalog_put(request, SystemKeyView::DBMetaKey { db: name }, spec_write_text(name))
                && carried@ == name
        }
    }
}

/// The last step of `create_db`.
pub open spec fn record_database_post(name: Seq<char>, reply: Reply, step: Step) -> bool {
    if reply is Done {
        step matches Step::Done(Ok(Outcome::Database(db))) && db@ == name
    } else {
        fails_invalid_state(step)
    }
}

/// The first step of `drop_db`: the database is forgotten and its store is
/// to be erased.
pub open spec fn drop_db_post(
    before: EngineView,
    name: Seq<char>,
    after: EngineView,
    step: Step,
) -> bool {
    if before.has_db(name) {
        &&& after == before.without(name)
        &&& step matches Step::Ask(Request::DestroyStore { db, path }, Pending::Finish) && db@
            == name && path@ == before.instance(name).root
    } else {
        after == before && fails_with(step, ErrorView::NotFound(IdView::Database(name)))
    }
}

/// Once the store of a new database has been opened, the database is
/// registered, and creating a database of that name again fails with
/// `AlreadyExists`.
pub proof fn law_create_db_twice_fails(
    before: EngineView,
    name: Seq<char>,
    reply: Reply,
    after: EngineView,
    first: Step,
    second: Step,
)
    requires
        reply is Opened || reply is Absent,
        open_created_post(before, name, reply, after, first),
        create_db_post(after, name, second),
    ensures
        after.has_db(name),
        fails_with(second, ErrorView::AlreadyExists(IdView::Database(name))),
{
    if !before.has_db(name) {
        let added = after.instances.len() - 1;
        assert(after.instances[added].name == name);
    }
}

/// A database that was dropped is not registered any more.
pub proof fn law_dropped_database_is_gone(
    before: EngineView,
    name: Seq<char>,
    after: EngineView,
    step: Step,
)
    requires
        before.wf(),
        before.has_db(name),
        drop_db_post(before, name, after, step),
    ensures
        !after.has_db(name),
        forall|other: Seq<char>| other != name ==> (after.has_db(other) <==> before.has_db(other)),
{
    let at = before.position(name);
    assert(before.names()[at] == name);
    assert(after.names() =~= before.names().remove(at));
    assert forall|other: Seq<char>| after.has_db(other) <==> before.has_db(other) && other
        != name by {
        lemma_remove_contains(before.names(), at, other);
        if after.has_db(other) {
            let i = choose|i: int|
                0 <= i < after.instances.len() && (#[trigger] after.instances[i]).name == other;
            assert(after.names()[i] == other);
        }
        if after.names().contains(other) {
            let i = choose|i: int| 0 <= i < after.names().len() && after.names()[i] == other;
            assert(after.instances[i].name == other);
        }
        if before.has_db(other) {
            let i = choose|i: int|
                0 <= i < before.instances.len() && (#[trigger] before.instances[i]).name == other;
            assert(before.names()[i] == other);
        }
        if before.names().contains(other) {
            let i = choose|i: int| 0 <= i < before.names().len() && before.names()[i] == other;
            assert(before.instances[i].name == other);
        }
    }
}

impl Engine {
    /// Creates a database.
    ///
    /// Fails with `AlreadyExists` where a database of that name is
    /// registered, whatever the name; a name that is not registered and
    /// holds a separator is refused with `InvalidArguments`. Otherwise the
    /// step asks for the store of the database to be opened if there is one;
    /// the steps that follow register the database and write its catalog
    /// entry.
    pub fn create_db(&self, name: &str) -> (step: Step)
        ensures
            create_db_post(self@, name@, step),
    {
        if self.db_exists(name) {
            return Step::Done(Err(ConstDBError::AlreadyExists(Id::database(name))));
        }
        if !is_valid_database_name(name) {
            return Step::Done(
                Err(ConstDBError::invalid_argument("invalid database name: ", name)),
            );
        }
        Step::Ask(self.open(name, false), Pending::OpenCreated { name: name.to_owned() })
    }

    /// Resumes the creation of a database once its store was looked for.
    pub(crate) fn after_open_created(&mut self, name: String, reply: Reply) -> (step: Step)
        requires
            old(self)@.wf(),
        ensures
            final(self)@.wf(),
            open_created_post(old(self)@, name@, reply, final(self)@, step),
    {
        match reply {
            Reply::Opened { .. } | Reply::Absent => {
                if self.db_exists(name.as_str()) {
                    return Step::Done(
                        Err(ConstDBError::AlreadyExists(Id::database(name.as_str()))),
                    );
                }
                self.register_opened(name.as_str(), reply);
                match self.system_db() {
                    Ok(_) => {},
                    Err(error) => {
                        return Step::Done(Err(error));
                    },
                }
                let value = match DBSettings::new(name.as_str()).write_to_bytes() {
                    Ok(value) => value,
                    Err(error) => {
                        return Step::Done(Err(error));
                    },
                };
                let key = SystemKeys::db_meta_key(name.as_str()).as_bytes();
                Step::Ask(
                    Request::Put { db: String::from_str("system"), table: None, key, value },
                    Pending::RecordDatabase { name },
                )
            },
            other => refuse(other),
        }
    }

    /// Ends the creation of a database once its catalog entry is written.
    pub(crate) fn after_record_database(name: String, reply: Reply) -> (step: Step)
        ensures
            record_database_post(name@, reply, step),
    {
        match reply {
            Reply::Done => Step::Done(Ok(Outcome::Database(DBSettings { name }))),
            other => refuse(other),
        }
    }

    /// Drops a database.
    ///
    /// Fails with `NotFound` where no database of that name is registered.
    /// Otherwise the database is forgotten and the step asks for its store
    /// to be erased. The catalog entry of the database is not removed.
    pub fn drop_db(&mut self, name: &str) -> (step: Step)
        requires
            old(self)@.wf(),
        ensures
            final(self)@.wf(),
            drop_db_post(old(self)@, name@, final(self)@, step),
    {
        match self.find(name) {
            Some(i) => {
                let ghost before = self@;
                let instance = self.dbs.remove(i);
                proof {
                    assert(before.instances[i as int] == instance@);
                    assert(self@.instances =~= before.instances.remove(i as int));
                    assert(self@.names() =~= before.names().remove(i as int));
                    lemma_remove_contains(before.names(), i as int, name@);
                }
                Step::Ask(
                    Request::DestroyStore { db: name.to_owned(), path: instance.root().to_owned() },
                    Pending::Finish,
                )
            },
            None => Step::Done(Err(ConstDBError::NotFound(Id::database(name)))),
        }
    }
}

} // verus!
