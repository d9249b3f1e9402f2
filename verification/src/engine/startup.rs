//! Startup: opening the system database and discovering the others.

use vstd::prelude::*;
use vstd::string::*;
use vstd::utf8::*;
use crate::db::DBInstance;
use crate::db::InstanceView;
use crate::engine::catalog_scan;
use crate::engine::Engine;
use crate::engine::EngineView;
use crate::engine::fails_invalid_state;
use crate::engine::open_request;
use crate::engine::refuse;
use crate::engine::system_name;
use crate::protocol::Entry;
use crate::protocol::Outcome;
use crate::protocol::Pending;
use crate::protocol::Reply;
use crate::protocol::Request;
use crate::protocol::Step;
use crate::protocol::texts;
use crate::protocol::unexpected_reply;
use crate::range::build_upper_bound;
use crate::system_db::law_db_key_round_trip;
use crate::system_db::spec_parse_db_meta_key;
use crate::system_db::SystemKeys;
use crate::system_db::SystemKeyView;

verus! {

/// Whether every entry holds the key of a database entry.
pub open spec fn all_database_entries(entries: Seq<Entry>) -> bool {
    forall|i: int|
        0 <= i < entries.len() ==> spec_parse_db_meta_key((#[trigger] entries[i]).key@) is Some
}

/// The database names that the entries of a catalog scan hold, in the order
/// of the scan, or `None` where an entry does not hold the key of a database
/// entry.
pub open spec fn discovered(entries: Seq<Entry>) -> Option<Seq<Seq<char>>> {
    if all_database_entries(entries) {
        Some(Seq::new(entries.len(), |i: int| spec_parse_db_meta_key(entries[i].key@)->0))
    } else {
        None
    }
}

/// The first position at or after `from` whose name is not registered, or
/// the number of names.
pub open spec fn next_unregistered(engine: EngineView, names: Seq<Seq<char>>, from: int) -> int
    decreases names.len() - from,
{
    if from < 0 || from >= names.len() || !engine.has_db(names[from]) {
        from
    } else {
        next_unregistered(engine, names, from + 1)
    }
}

/// The step that opens the next database of `names` that is not registered
/// yet, or ends the startup if there is none.
pub open spec fn opens_next(engine: EngineView, names: Seq<String>, from: int, step: Step) -> bool {
    let at = next_unregistered(engine, texts(names), from);
    if at < names.len() {
        step matches Step::Ask(request, Pending::OpenDatabases { names: rest, next })
            && open_request(request, engine, names[at]@, false) && rest@ == names && next == at
    } else {
        step matches Step::Done(Ok(Outcome::Unit))
    }
}

/// What is known of a store that was just opened in the directory `root`
/// and reported the keyspaces `tables`.
pub open spec fn opened_with(
    instance: InstanceView,
    name: Seq<char>,
    root: Seq<char>,
    tables: Seq<Seq<char>>,
) -> bool {
    &&& instance.name == name
    &&& instance.root == root
    &&& instance.is_open()
    &&& instance.wf()
    &&& forall|table: Seq<char>| instance.has_keyspace(table) <==> tables.contains(table)
}

/// What is known of a database whose store does not exist yet.
pub open spec fn unopened(name: Seq<char>, root: Seq<char>) -> InstanceView {
    InstanceView { name, root, keyspaces: None }
}

/// How the engine registers the database `name` on the reply to the request
/// that opens its store.
pub open spec fn registers(
    before: EngineView,
    name: Seq<char>,
    reply: Reply,
    after: EngineView,
) -> bool {
    match reply {
        Reply::Opened { tables } => exists|instance: InstanceView|
            after == before.with(instance) && #[trigger] opened_with(
                instance,
                name,
                before.path_of(name),
                texts(tables@),
            ),
        _ => after == before.with(unopened(name, before.path_of(name))),
    }
}

/// The first step of the startup: on `Opened` the system database is
/// registered and the catalog is scanned for database entries.
pub open spec fn open_system_post(
    before: EngineView,
    reply: Reply,
    after: EngineView,
    step: Step,
) -> bool {
    if reply is Opened && !before.has_db(system_name()) {
        &&& registers(before, system_name(), reply, after)
        &&& step matches Step::Ask(request, Pending::Discover) && catalog_scan(
            request,
            SystemKeyView::DBMetaPrefix,
        )
    } else {
        after == before && fails_invalid_state(step)
    }
}

/// The second step of the startup: the databases that the scan found are
/// opened one after the other. An entry that does not hold the key of a
/// database entry ends the startup with `InvalidStates`.
pub open spec fn discover_post(
    before: EngineView,
    reply: Reply,
    after: EngineView,
    step: Step,
) -> bool {
    &&& after == before
    &&& match reply {
        Reply::Entries(entries) => match discovered(entries@) {
            Some(found) => exists|names: Seq<String>|
                texts(names) == found && #[trigger] opens_next(before, names, 0, step),
            None => fails_invalid_state(step),
        },
        _ => fails_invalid_state(step),
    }
}

/// The further steps of the startup: the database that was opened is
/// registered, open or not, and the next one is opened.
pub open spec fn open_databases_post(
    before: EngineView,
    names: Seq<String>,
    next: int,
    reply: Reply,
    after: EngineView,
    step: Step,
) -> bool {
    if 0 <= next < names.len() && (reply is Opened || reply is Absent) {
        &&& if before.has_db(names[next]@) {
            after == before
        } else {
            registers(before, names[next]@, reply, after)
        }
        &&& opens_next(after, names, next + 1, step)
    } else {
        after == before && fails_invalid_state(step)
    }
}

/// A scan that returns the catalog entries of these databases, and nothing
/// else, discovers every one of them.
pub proof fn law_discovery_finds_every_database(entries: Seq<Entry>, names: Seq<Seq<char>>)
    requires
        entries.len() == names.len(),
        forall|i: int|
            0 <= i < entries.len() ==> (#[trigger] entries[i]).key@ == (SystemKeyView::DBMetaKey {
                db: names[i],
            }).bytes(),
    ensures
        discovered(entries) == Some(names),
{
    assert forall|i: int| 0 <= i < entries.len() implies spec_parse_db_meta_key(
        (#[trigger] entries[i]).key@,
    ) == Some(names[i]) by {
        law_db_key_round_trip(names[i]);
    }
    assert(discovered(entries)->0 =~= names);
}

impl Engine {
    /// Registers the database `name` as the reply to its open request says.
    pub(crate) fn register_opened(&mut self, name: &str, reply: Reply)
        requires
            old(self)@.wf(),
            !old(self)@.has_db(name@),
            reply is Opened || reply is Absent,
        ensures
            final(self)@.wf(),
            registers(old(self)@, name@, reply, final(self)@),
    {
        let path = self.path_of(name);
        let mut instance = DBInstance::new(name, path.as_str());
        match reply {
            Reply::Opened { tables } => {
                instance.opened(tables);
                assert(opened_with(instance@, name@, self@.path_of(name@), texts(tables@)));
            },
            _ => {},
        }
        self.register(instance);
    }

    /// Opens the next database of `names`, from position `from` on, that is
    /// not registered yet.
    pub(crate) fn open_next(&self, names: Vec<String>, from: usize) -> (step: Step)
        ensures
            opens_next(self@, names@, from as int, step),
    {
        let mut at: usize = from;
        while at < names.len()
            invariant
                next_unregistered(self@, texts(names@), from as int) == next_unregistered(
                    self@,
                    texts(names@),
                    at as int,
                ),
            decreases names.len() - at,
        {
            assert(texts(names@)[at as int] == names@[at as int]@);
            if self.find(names[at].as_str()).is_none() {
                let request = self.open(names[at].as_str(), false);
                return Step::Ask(request, Pending::OpenDatabases { names, next: at });
            }
            at = at + 1;
        }
        Step::Done(Ok(Outcome::Unit))
    }

    /// Resumes the startup once the store of the system database is open.
    pub(crate) fn after_open_system(&mut self, reply: Reply) -> (step: Step)
        requires
            old(self)@.wf(),
        ensures
            final(self)@.wf(),
            open_system_post(old(self)@, reply, final(self)@, step),
    {
        match reply {
            Reply::Opened { tables } => {
                if self.find("system").is_some() {
                    return Step::Done(Err(unexpected_reply()));
                }
                self.register_opened("system", Reply::Opened { tables });
                let prefix = SystemKeys::DBMetaPrefix.as_bytes();
                let until = build_upper_bound(prefix.as_slice());
                Step::Ask(
                    Request::Scan { db: String::from_str("system"), table: None, from: prefix, until },
                    Pending::Discover,
                )
            },
            other => refuse(other),
        }
    }

    /// Resumes the startup with the database entries of the catalog.
    pub(crate) fn after_discover(&self, reply: Reply) -> (step: Step)
        ensures
            discover_post(self@, reply, self@, step),
    {
        match reply {
            Reply::Entries(entries) => {
                let mut names: Vec<String> = Vec::new();
                let mut i: usize = 0;
                while i < entries.len()
                    invariant
                        i <= entries.len(),
                        names@.len() == i,
                        reply == Reply::Entries(entries),
                        forall|j: int|
                            0 <= j < i ==> Some((#[trigger] names@[j])@) == spec_parse_db_meta_key(
                                entries@[j].key@,
                            ),
                    decreases entries.len() - i,
                {
                    match SystemKeys::parse_db_meta_key(entries[i].key.as_slice()) {
                        Ok(name) => {
                            names.push(name);
                        },
                        Err(error) => {
                            assert(spec_parse_db_meta_key(entries@[i as int].key@) is None);
                            return Step::Done(Err(error));
                        },
                    }
                    i = i + 1;
                }
                assert(all_database_entries(entries@)) by {
                    assert forall|j: int| 0 <= j < entries@.len() implies spec_parse_db_meta_key(
                        (#[trigger] entries@[j]).key@,
                    ) is Some by {
                        assert(Some(names@[j]@) == spec_parse_db_meta_key(entries@[j].key@));
                    }
                }
                assert(texts(names@) =~= discovered(entries@)->0);
                let ghost found = names@;
                let step = self.open_next(names, 0);
                assert(opens_next(self@, found, 0, step));
                step
            },
            other => refuse(other),
        }
    }

    /// Resumes the startup once the store of a listed database was looked
    /// for.
    pub(crate) fn after_open_databases(&mut self, names: Vec<String>, next: usize, reply: Reply) -> (step:
        Step)
        requires
            old(self)@.wf(),
        ensures
            final(self)@.wf(),
            open_databases_post(old(self)@, names@, next as int, reply, final(self)@, step),
    {
        if next >= names.len() {
            return refuse(reply);
        }
        match reply {
            Reply::Opened { .. } | Reply::Absent => {
                if self.find(names[next].as_str()).is_none() {
                    self.register_opened(names[next].as_str(), reply);
                }
                self.open_next(names, next + 1)
            },
            other => refuse(other),
        }
    }
}

} // verus!
