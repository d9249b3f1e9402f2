//! What creating a database or a table does to the catalog.

use vstd::prelude::*;
use vstd::utf8::*;
use crate::behaviour::answers;
use crate::behaviour::completes;
use crate::behaviour::lemma_position_is;
use crate::behaviour::lemma_registers_adds;
use crate::behaviour::lemma_scanned_prefix;
use crate::behaviour::lookup;
use crate::behaviour::prefix_rows;
use crate::behaviour::records;
use crate::behaviour::serves;
use crate::behaviour::Stores;
use crate::behaviour::without_store;
use crate::db::InstanceView;
use crate::engine::databases::create_db_post;
use crate::engine::databases::drop_db_post;
use crate::engine::databases::law_dropped_database_is_gone;
use crate::engine::EngineView;
use crate::engine::resumed;
use crate::engine::startup::registers;
use crate::engine::system_name;
use crate::engine::tables::create_table_post;
use crate::engine::tables::delete_table_post;
use crate::engine::tables::get_table_post;
use crate::engine::tables::holds_table;
use crate::engine::tables::keyspace_added;
use crate::engine::tables::keyspace_removed;
use crate::engine::tables::lemma_replacing_wf;
use crate::engine::tables::list_table_post;
use crate::engine::tables::listed;
use crate::engine::tables::tables_view;
use crate::errors::ConstDBError;
use crate::errors::ErrorView;
use crate::ids::IdView;
use crate::model::TableSettings;
use crate::protocol::Entry;
use crate::protocol::Outcome;
use crate::protocol::Reply;
use crate::protocol::Step;
use crate::range::has_prefix;
use crate::records::law_table_record_round_trip;
use crate::records::spec_read_table;
use crate::records::spec_write_table;
use crate::records::spec_write_text;
use crate::records::storable;
use crate::schema::FloatReading;
use crate::schema::ValueView;
use crate::system_db::spec_parse_table_meta_key;
use crate::system_db::SystemKeyView;
use crate::system_db::valid_database_name;

verus! {

/// The engine and the stores are ready for a new table: the catalog can be
/// read and written, the store of the database is open, and neither the
/// engine nor the store knows a keyspace of that name.
pub open spec fn ready_for_table(
    engine: EngineView,
    stores: Stores,
    db: Seq<char>,
    name: Seq<char>,
) -> bool {
    &&& engine.wf()
    &&& engine.has_db(db)
    &&& engine.catalog_ready()
    &&& engine.instance(db).is_open()
    &&& !engine.instance(db).has_keyspace(name)
    &&& stores.keyspaces.contains_key((system_name(), None::<Seq<char>>))
    &&& stores.keyspaces.contains_key((db, None::<Seq<char>>))
    &&& !stores.keyspaces.contains_key((db, Some(name)))
}

/// The stores with the empty keyspace of a new table and its catalog entry.
pub open spec fn with_table(
    stores: Stores,
    db: Seq<char>,
    name: Seq<char>,
    stored: Seq<u8>,
) -> Stores {
    let catalog = (system_name(), None::<Seq<char>>);
    let entry = (SystemKeyView::TableMetaKey { db, table: name }).bytes();
    let made = stores.keyspaces.insert((db, Some(name)), Map::empty());
    Stores { keyspaces: made.insert(catalog, made[catalog].insert(entry, stored)) }
}

/// Creating a table fails with `AlreadyExists`, and changes nothing, where
/// the catalog lists the table. Otherwise it makes the keyspace of the table
/// and writes its catalog entry, and the engine then serves the table.
pub proof fn law_created_table_is_served(
    floats: spec_fn(ValueView) -> FloatReading,
    engine: EngineView,
    stores: Stores,
    db: Seq<char>,
    input: TableSettings,
    first: Step,
    fuel: nat,
    ended: EngineView,
    after: Stores,
    result: Result<Outcome, ConstDBError>,
)
    requires
        ready_for_table(engine, stores, db, input@.name),
        storable(input@),
        create_table_post(engine, db, input@, first),
        completes(floats, engine, stores, first, fuel, ended, after, result),
    ensures
        if stores.keyspaces[(system_name(), None::<Seq<char>>)].contains_key(
            (SystemKeyView::TableMetaKey { db, table: input@.name }).bytes(),
        ) {
            &&& result matches Err(e) && e@ == ErrorView::AlreadyExists(
                IdView::Table { db, name: input@.name },
            )
            &&& after == stores
            &&& ended == engine
        } else {
            &&& result == Ok::<Outcome, ConstDBError>(Outcome::Unit)
            &&& after == with_table(stores, db, input@.name, spec_write_table(input@))
            &&& serves(ended, after, db, input@.name, input)
        },
{
    let name = input@.name;
    let catalog = (system_name(), None::<Seq<char>>);
    let entry = (SystemKeyView::TableMetaKey { db, table: name }).bytes();
    let (request, pending) = (first->Ask_0, first->Ask_1);
    let (reply, engine1, mid, next) = choose|
        reply: Reply,
        engine1: EngineView,
        mid: Stores,
        next: Step,
    |
        #![trigger answers(floats, stores, request, reply, mid), resumed(engine, pending, reply, engine1, next)]
        answers(floats, stores, request, reply, mid) && resumed(engine, pending, reply, engine1, next)
            && completes(floats, engine1, mid, next, (fuel - 1) as nat, ended, after, result);
    assert(engine1 == engine && mid == stores);
    if !stores.keyspaces[catalog].contains_key(entry) {
        let (request2, pending2) = (next->Ask_0, next->Ask_1);
        let (reply2, engine2, mid2, next2) = choose|
            reply2: Reply,
            engine2: EngineView,
            mid2: Stores,
            next2: Step,
        |
            #![trigger answers(floats, mid, request2, reply2, mid2), resumed(engine, pending2, reply2, engine2, next2)]
            answers(floats, mid, request2, reply2, mid2) && resumed(engine, pending2, reply2, engine2, next2)
                && completes(floats, engine2, mid2, next2, (fuel - 2) as nat, ended, after, result);
        assert(mid2.keyspaces == stores.keyspaces.insert((db, Some(name)), Map::empty()));
        let instance = choose|instance: InstanceView|
            engine2 == engine.replacing(instance) && #[trigger] keyspace_added(
                engine.instance(db),
                instance,
                name,
            );
        let at = engine.position(db);
        lemma_replacing_wf(engine, at, instance);
        let system = engine.position(system_name());
        lemma_position_is(engine2, at);
        lemma_position_is(engine2, system);
        assert(engine2.instance(db) == instance);
        assert(engine2.instance(system_name()).is_open());
        assert(engine2.catalog_ready());
        let (request3, pending3) = (next2->Ask_0, next2->Ask_1);
        let (reply3, engine3, mid3, next3) = choose|
            reply3: Reply,
            engine3: EngineView,
            mid3: Stores,
            next3: Step,
        |
            #![trigger answers(floats, mid2, request3, reply3, mid3), resumed(engine2, pending3, reply3, engine3, next3)]
            answers(floats, mid2, request3, reply3, mid3) && resumed(
                engine2,
                pending3,
                reply3,
                engine3,
                next3,
            ) && completes(floats, engine3, mid3, next3, (fuel - 3) as nat, ended, after, result);
        assert(engine3 == engine2);
        assert(mid3 == with_table(stores, db, name, spec_write_table(input@)));
        law_table_record_round_trip(input@);
        assert(catalog != (db, Some(name)));
    }
}

/// Registering a database that was not registered keeps the engine well
/// formed and leaves the other databases as they were.
pub proof fn lemma_registers_keeps(
    before: EngineView,
    name: Seq<char>,
    reply: Reply,
    after: EngineView,
    other: Seq<char>,
)
    requires
        before.wf(),
        !before.has_db(name),
        before.has_db(other),
        registers(before, name, reply, after),
    ensures
        after.wf(),
        after.has_db(other),
        after.instance(other) == before.instance(other),
{
    let instance = after.instances[after.instances.len() - 1];
    assert(instance.name == name && instance.wf());
    assert forall|i: int, j: int| 0 <= i < j < after.names().len() implies after.names()[i]
        != after.names()[j] by {
        if j < before.instances.len() {
            assert(before.names()[i] != before.names()[j]);
        } else {
            assert(before.instances[i].name == after.names()[i]);
        }
    }
    assert forall|i: int| 0 <= i < after.instances.len() implies (
    #[trigger] after.instances[i]).wf() by {
        if i < before.instances.len() {
            assert(after.instances[i] == before.instances[i]);
        }
    }
    let at = before.position(other);
    assert(after.instances[at] == before.instances[at]);
    lemma_position_is(after, at);
}

/// The stores with a catalog entry written.
pub open spec fn with_entry(stores: Stores, key: Seq<u8>, value: Seq<u8>) -> Stores {
    let catalog = (system_name(), None::<Seq<char>>);
    Stores { keyspaces: stores.keyspaces.insert(catalog, stores.keyspaces[catalog].insert(key, value)) }
}

/// Creating a database that is not registered registers it and writes its
/// catalog entry, and changes no record.
pub proof fn law_created_database_is_recorded(
    floats: spec_fn(ValueView) -> FloatReading,
    engine: EngineView,
    stores: Stores,
    name: Seq<char>,
    first: Step,
    fuel: nat,
    ended: EngineView,
    after: Stores,
    result: Result<Outcome, ConstDBError>,
)
    requires
        engine.wf(),
        engine.catalog_ready(),
        !engine.has_db(name),
        valid_database_name(name),
        encode_utf8(name).len() <= u32::MAX,
        stores.keyspaces.contains_key((system_name(), None::<Seq<char>>)),
        create_db_post(engine, name, first),
        completes(floats, engine, stores, first, fuel, ended, after, result),
    ensures
        result matches Ok(Outcome::Database(db)) && db@ == name,
        ended.wf(),
        ended.has_db(name),
        after == with_entry(
            stores,
            (SystemKeyView::DBMetaKey { db: name }).bytes(),
            spec_write_text(name),
        ),
{
    let (request, pending) = (first->Ask_0, first->Ask_1);
    let (reply, engine1, mid, next) = choose|
        reply: Reply,
        engine1: EngineView,
        mid: Stores,
        next: Step,
    |
        #![trigger answers(floats, stores, request, reply, mid), resumed(engine, pending, reply, engine1, next)]
        answers(floats, stores, request, reply, mid) && resumed(engine, pending, reply, engine1, next)
            && completes(floats, engine1, mid, next, (fuel - 1) as nat, ended, after, result);
    assert(system_name() != name);
    assert(mid == stores);
    lemma_registers_adds(engine, name, reply, engine1);
    lemma_registers_keeps(engine, name, reply, engine1, system_name());
    let (request2, pending2) = (next->Ask_0, next->Ask_1);
    let (reply2, engine2, mid2, next2) = choose|
        reply2: Reply,
        engine2: EngineView,
        mid2: Stores,
        next2: Step,
    |
        #![trigger answers(floats, mid, request2, reply2, mid2), resumed(engine1, pending2, reply2, engine2, next2)]
        answers(floats, mid, request2, reply2, mid2) && resumed(engine1, pending2, reply2, engine2, next2)
            && completes(floats, engine2, mid2, next2, (fuel - 2) as nat, ended, after, result);
    assert(mid2 == with_entry(
        stores,
        (SystemKeyView::DBMetaKey { db: name }).bytes(),
        spec_write_text(name),
    ));
}

/// Creating a database that is registered fails with `AlreadyExists` and
/// changes nothing.
pub proof fn law_database_is_created_once(
    floats: spec_fn(ValueView) -> FloatReading,
    engine: EngineView,
    stores: Stores,
    name: Seq<char>,
    first: Step,
    fuel: nat,
    ended: EngineView,
    after: Stores,
    result: Result<Outcome, ConstDBError>,
)
    requires
        engine.has_db(name),
        create_db_post(engine, name, first),
        completes(floats, engine, stores, first, fuel, ended, after, result),
    ensures
        result matches Err(e) && e@ == ErrorView::AlreadyExists(IdView::Database(name)),
        ended == engine,
        after == stores,
{
}

/// Whether every entry of the catalog whose key begins with the table
/// prefix of `db` holds a table.
pub open spec fn table_entries_are_sound(catalog: Map<Seq<u8>, Seq<u8>>, db: Seq<char>) -> bool {
    forall|key: Seq<u8>|
        #![trigger catalog.contains_key(key)]
        catalog.contains_key(key) && has_prefix(
            key,
            (SystemKeyView::TableMetaPrefix { db }).bytes(),
        ) ==> spec_parse_table_meta_key(key) is Some && spec_read_table(catalog[key]) is Some
}

/// Listing the tables of a database changes nothing and ends with the
/// tables of the catalog entries whose key begins with the table prefix of
/// the database, in key order.
pub proof fn law_list_table_lists_the_entries(
    floats: spec_fn(ValueView) -> FloatReading,
    engine: EngineView,
    stores: Stores,
    db: Seq<char>,
    first: Step,
    fuel: nat,
    ended: EngineView,
    after: Stores,
    result: Result<Outcome, ConstDBError>,
)
    requires
        engine.has_db(db),
        engine.catalog_ready(),
        stores.keyspaces.contains_key((system_name(), None::<Seq<char>>)),
        table_entries_are_sound(stores.keyspaces[(system_name(), None::<Seq<char>>)], db),
        list_table_post(engine, db, first),
        completes(floats, engine, stores, first, fuel, ended, after, result),
    ensures
        ended == engine,
        after == stores,
        exists|entries: Seq<Entry>| #[trigger]
            prefix_rows(
                stores.keyspaces[(system_name(), None::<Seq<char>>)],
                (SystemKeyView::TableMetaPrefix { db }).bytes(),
                entries,
            ) && (result matches Ok(Outcome::Tables(tables)) && Some(tables_view(tables@))
                == listed(entries)),
{
    let catalog = stores.keyspaces[(system_name(), None::<Seq<char>>)];
    let prefix = (SystemKeyView::TableMetaPrefix { db }).bytes();
    let (request, pending) = (first->Ask_0, first->Ask_1);
    let (reply, engine1, mid, next) = choose|
        reply: Reply,
        engine1: EngineView,
        mid: Stores,
        next: Step,
    |
        #![trigger answers(floats, stores, request, reply, mid), resumed(engine, pending, reply, engine1, next)]
        answers(floats, stores, request, reply, mid) && resumed(engine, pending, reply, engine1, next)
            && completes(floats, engine1, mid, next, (fuel - 1) as nat, ended, after, result);
    let entries = reply->Entries_0@;
    lemma_scanned_prefix(catalog, prefix, entries);
    assert forall|i: int| 0 <= i < entries.len() implies holds_table(#[trigger] entries[i]) by {
        assert(catalog.contains_key(entries[i].key@));
    }
    assert(prefix_rows(catalog, prefix, entries));
}

/// The stores without the keyspace of a table and without its catalog
/// entry.
pub open spec fn without_table(stores: Stores, db: Seq<char>, name: Seq<char>) -> Stores {
    let catalog = (system_name(), None::<Seq<char>>);
    let entry = (SystemKeyView::TableMetaKey { db, table: name }).bytes();
    let dropped = stores.keyspaces.remove((db, Some(name)));
    Stores { keyspaces: dropped.insert(catalog, dropped[catalog].remove(entry)) }
}

/// Deleting a table fails with `NotFound`, and changes nothing, where the
/// catalog does not list the table. Otherwise it removes the keyspace of
/// the table and its catalog entry, and the engine forgets the keyspace.
pub proof fn law_deleted_table_is_gone(
    floats: spec_fn(ValueView) -> FloatReading,
    engine: EngineView,
    stores: Stores,
    db: Seq<char>,
    name: Seq<char>,
    first: Step,
    fuel: nat,
    ended: EngineView,
    after: Stores,
    result: Result<Outcome, ConstDBError>,
)
    requires
        engine.wf(),
        engine.has_db(db),
        engine.catalog_ready(),
        engine.instance(db).has_keyspace(name),
        stores.keyspaces.contains_key((system_name(), None::<Seq<char>>)),
        stores.keyspaces.contains_key((db, Some(name))),
        delete_table_post(engine, db, name, first),
        completes(floats, engine, stores, first, fuel, ended, after, result),
    ensures
        if stores.keyspaces[(system_name(), None::<Seq<char>>)].contains_key(
            (SystemKeyView::TableMetaKey { db, table: name }).bytes(),
        ) {
            &&& result == Ok::<Outcome, ConstDBError>(Outcome::Unit)
            &&& after == without_table(stores, db, name)
            &&& ended.has_db(db)
            &&& !ended.instance(db).has_keyspace(name)
        } else {
            &&& result matches Err(e) && e@ == ErrorView::NotFound(IdView::Table { db, name })
            &&& after == stores
            &&& ended == engine
        },
{
    let catalog = (system_name(), None::<Seq<char>>);
    let entry = (SystemKeyView::TableMetaKey { db, table: name }).bytes();
    let (request, pending) = (first->Ask_0, first->Ask_1);
    let (reply, engine1, mid, next) = choose|
        reply: Reply,
        engine1: EngineView,
        mid: Stores,
        next: Step,
    |
        #![trigger answers(floats, stores, request, reply, mid), resumed(engine, pending, reply, engine1, next)]
        answers(floats, stores, request, reply, mid) && resumed(engine, pending, reply, engine1, next)
            && completes(floats, engine1, mid, next, (fuel - 1) as nat, ended, after, result);
    assert(engine1 == engine && mid == stores);
    if stores.keyspaces[catalog].contains_key(entry) {
        let (request2, pending2) = (next->Ask_0, next->Ask_1);
        let (reply2, engine2, mid2, next2) = choose|
            reply2: Reply,
            engine2: EngineView,
            mid2: Stores,
            next2: Step,
        |
            #![trigger answers(floats, mid, request2, reply2, mid2), resumed(engine, pending2, reply2, engine2, next2)]
            answers(floats, mid, request2, reply2, mid2) && resumed(engine, pending2, reply2, engine2, next2)
                && completes(floats, engine2, mid2, next2, (fuel - 2) as nat, ended, after, result);
        assert(mid2.keyspaces == stores.keyspaces.remove((db, Some(name))));
        let instance = choose|instance: InstanceView|
            engine2 == engine.replacing(instance) && #[trigger] keyspace_removed(
                engine.instance(db),
                instance,
                name,
            );
        let at = engine.position(db);
        lemma_replacing_wf(engine, at, instance);
        let system = engine.position(system_name());
        lemma_position_is(engine2, at);
        lemma_position_is(engine2, system);
        assert(engine2.instance(db) == instance);
        assert(engine2.instance(system_name()).is_open());
        assert(engine2.catalog_ready());
        assert(catalog != (db, Some(name)));
        let (request3, pending3) = (next2->Ask_0, next2->Ask_1);
        let (reply3, engine3, mid3, next3) = choose|
            reply3: Reply,
            engine3: EngineView,
            mid3: Stores,
            next3: Step,
        |
            #![trigger answers(floats, mid2, request3, reply3, mid3), resumed(engine2, pending3, reply3, engine3, next3)]
            answers(floats, mid2, request3, reply3, mid3) && resumed(
                engine2,
                pending3,
                reply3,
                engine3,
                next3,
            ) && completes(floats, engine3, mid3, next3, (fuel - 3) as nat, ended, after, result);
        assert(engine3 == engine2);
        assert(mid3 == without_table(stores, db, name));
    }
}

/// Dropping a database forgets it and erases its store; the catalog entry
/// of the database stays.
pub proof fn law_dropped_database_is_erased(
    floats: spec_fn(ValueView) -> FloatReading,
    engine: EngineView,
    stores: Stores,
    name: Seq<char>,
    dropped: EngineView,
    first: Step,
    fuel: nat,
    ended: EngineView,
    after: Stores,
    result: Result<Outcome, ConstDBError>,
)
    requires
        engine.wf(),
        engine.has_db(name),
        name != system_name(),
        drop_db_post(engine, name, dropped, first),
        completes(floats, dropped, stores, first, fuel, ended, after, result),
    ensures
        result == Ok::<Outcome, ConstDBError>(Outcome::Unit),
        !ended.has_db(name),
        after == without_store(stores, name),
        stores.keyspaces.contains_key((system_name(), None::<Seq<char>>))
            ==> after.keyspaces.contains_key((system_name(), None::<Seq<char>>))
            && after.keyspaces[(system_name(), None::<Seq<char>>)] == stores.keyspaces[(
            system_name(),
            None::<Seq<char>>,
        )],
{
    law_dropped_database_is_gone(engine, name, dropped, first);
    let (request, pending) = (first->Ask_0, first->Ask_1);
    let (reply, engine1, mid, next) = choose|
        reply: Reply,
        engine1: EngineView,
        mid: Stores,
        next: Step,
    |
        #![trigger answers(floats, stores, request, reply, mid), resumed(dropped, pending, reply, engine1, next)]
        answers(floats, stores, request, reply, mid) && resumed(dropped, pending, reply, engine1, next)
            && completes(floats, engine1, mid, next, (fuel - 1) as nat, ended, after, result);
    assert(engine1 == dropped);
    assert(mid == without_store(stores, name));
}

/// Reading the settings of a table changes nothing and ends with the
/// settings that the catalog holds, or with `NotFound` where it holds none.
pub proof fn law_get_table_reads_the_settings(
    floats: spec_fn(ValueView) -> FloatReading,
    engine: EngineView,
    stores: Stores,
    db: Seq<char>,
    table: Seq<char>,
    first: Step,
    fuel: nat,
    ended: EngineView,
    after: Stores,
    result: Result<Outcome, ConstDBError>,
)
    requires
        engine.has_db(db),
        engine.catalog_ready(),
        stores.keyspaces.contains_key((system_name(), None::<Seq<char>>)),
        get_table_post(engine, db, table, first),
        completes(floats, engine, stores, first, fuel, ended, after, result),
    ensures
        ended == engine,
        after == stores,
        match lookup(
            stores.keyspaces[(system_name(), None::<Seq<char>>)],
            (SystemKeyView::TableMetaKey { db, table }).bytes(),
        ) {
            Some(stored) => match spec_read_table(stored) {
                Some(read) => result matches Ok(Outcome::Table(settings)) && settings@ == read,
                None => result matches Err(e) && e@ is InvalidStates,
            },
            None => result matches Err(e) && e@ == ErrorView::NotFound(
                IdView::Table { db, name: table },
            ),
        },
{
    let (request, pending) = (first->Ask_0, first->Ask_1);
    let (reply, engine1, mid, next) = choose|
        reply: Reply,
        engine1: EngineView,
        mid: Stores,
        next: Step,
    |
        #![trigger answers(floats, stores, request, reply, mid), resumed(engine, pending, reply, engine1, next)]
        answers(floats, stores, request, reply, mid) && resumed(engine, pending, reply, engine1, next)
            && completes(floats, engine1, mid, next, (fuel - 1) as nat, ended, after, result);
    assert(engine1 == engine && mid == stores);
}

} // verus!
