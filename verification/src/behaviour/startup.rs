//! What a startup finds in the stores.

use vstd::prelude::*;
use vstd::utf8::*;
use crate::behaviour::answers;
use crate::behaviour::catalog::law_get_table_reads_the_settings;
use crate::behaviour::catalog::with_entry;
use crate::behaviour::catalog::with_table;
use crate::behaviour::completes;
use crate::behaviour::lemma_position_is;
use crate::behaviour::lemma_registers_adds;
use crate::behaviour::lemma_scanned_prefix;
use crate::behaviour::records;
use crate::behaviour::serves;
use crate::behaviour::Stores;
use crate::db::InstanceView;
use crate::engine::EngineView;
use crate::engine::open_request;
use crate::engine::resumed;
use crate::engine::startup::all_database_entries;
use crate::engine::startup::discovered;
use crate::engine::startup::next_unregistered;
use crate::engine::startup::opened_with;
use crate::engine::startup::opens_next;
use crate::engine::startup::registers;
use crate::engine::system_name;
use crate::engine::tables::get_table_post;
use crate::errors::ConstDBError;
use crate::model::TableSettings;
use crate::protocol::Outcome;
use crate::protocol::Pending;
use crate::protocol::Reply;
use crate::protocol::Request;
use crate::protocol::Step;
use crate::protocol::texts;
use crate::range::has_prefix;
use crate::records::law_table_record_round_trip;
use crate::records::spec_read_table;
use crate::records::spec_write_table;
use crate::records::storable;
use crate::schema::FloatReading;
use crate::schema::ValueView;
use crate::system_db::law_db_key_round_trip;
use crate::system_db::law_parsed_db_key_is_its_key;
use crate::system_db::spec_parse_db_meta_key;
use crate::system_db::SystemKeyView;

verus! {

/// Every name between `from` and the next unregistered one is registered.
pub proof fn lemma_next_unregistered(engine: EngineView, names: Seq<Seq<char>>, from: int)
    requires
        0 <= from <= names.len(),
    ensures
        from <= next_unregistered(engine, names, from) <= names.len(),
        forall|j: int|
            from <= j < next_unregistered(engine, names, from) ==> engine.has_db(
                #[trigger] names[j],
            ),
        next_unregistered(engine, names, from) < names.len() ==> !engine.has_db(
            names[next_unregistered(engine, names, from)],
        ),
    decreases names.len() - from,
{
    if from < names.len() && engine.has_db(names[from]) {
        lemma_next_unregistered(engine, names, from + 1);
    }
}

/// Opening the databases of a list, one after the other, ends with
/// success and registers every one of them and nothing else, and forgets
/// none that was registered.
pub proof fn lemma_opening_registers_all(
    floats: spec_fn(ValueView) -> FloatReading,
    engine: EngineView,
    stores: Stores,
    names: Seq<String>,
    from: int,
    step: Step,
    fuel: nat,
    ended: EngineView,
    after: Stores,
    result: Result<Outcome, ConstDBError>,
)
    requires
        0 <= from <= names.len(),
        forall|j: int| 0 <= j < from ==> engine.has_db((#[trigger] names[j])@),
        opens_next(engine, names, from, step),
        completes(floats, engine, stores, step, fuel, ended, after, result),
    ensures
        result == Ok::<Outcome, ConstDBError>(Outcome::Unit),
        forall|j: int| 0 <= j < names.len() ==> ended.has_db((#[trigger] names[j])@),
        forall|other: Seq<char>| engine.has_db(other) ==> ended.has_db(other),
        forall|other: Seq<char>|
            ended.has_db(other) ==> engine.has_db(other) || texts(names).contains(other),
    decreases names.len() - from,
{
    let at = next_unregistered(engine, texts(names), from);
    lemma_next_unregistered(engine, texts(names), from);
    assert forall|j: int| 0 <= j < at implies engine.has_db((#[trigger] names[j])@) by {
        if from <= j {
            assert(texts(names)[j] == names[j]@);
        }
    }
    if at < names.len() {
        assert(texts(names)[at] == names[at]@);
        let (request, pending) = (step->Ask_0, step->Ask_1);
        let (reply, resumed_engine, mid, next) = choose|
            reply: Reply,
            resumed_engine: EngineView,
            mid: Stores,
            next: Step,
        |
            #![trigger answers(floats, stores, request, reply, mid), resumed(engine, pending, reply, resumed_engine, next)]
            answers(floats, stores, request, reply, mid) && resumed(
                engine,
                pending,
                reply,
                resumed_engine,
                next,
            ) && completes(floats, resumed_engine, mid, next, (fuel - 1) as nat, ended, after, result);
        assert(reply is Opened || reply is Absent);
        lemma_registers_adds(engine, names[at]@, reply, resumed_engine);
        lemma_opening_registers_all(
            floats,
            resumed_engine,
            mid,
            names,
            at + 1,
            next,
            (fuel - 1) as nat,
            ended,
            after,
            result,
        );
    }
}

/// The catalog that a startup finds: the default keyspace of the system
/// database, or nothing where the system database has no store yet.
pub open spec fn found_catalog(stores: Stores) -> Map<Seq<u8>, Seq<u8>> {
    if stores.keyspaces.contains_key((system_name(), None::<Seq<char>>)) {
        stores.keyspaces[(system_name(), None::<Seq<char>>)]
    } else {
        Map::empty()
    }
}

/// Whether every key of the catalog that begins with the database tag is
/// the key of a database entry.
pub open spec fn database_entries_are_sound(catalog: Map<Seq<u8>, Seq<u8>>) -> bool {
    forall|key: Seq<u8>|
        #![trigger catalog.contains_key(key)]
        catalog.contains_key(key) && has_prefix(key, SystemKeyView::DBMetaPrefix.bytes())
            ==> spec_parse_db_meta_key(key) is Some
}

/// A startup on a catalog whose database entries are sound ends with
/// success. It has then registered the system database and every database
/// that the catalog lists, and no other.
pub proof fn law_startup_finds_every_database(
    floats: spec_fn(ValueView) -> FloatReading,
    engine: EngineView,
    stores: Stores,
    first: Step,
    fuel: nat,
    ended: EngineView,
    after: Stores,
    result: Result<Outcome, ConstDBError>,
)
    requires
        engine.instances.len() == 0,
        first matches Step::Ask(request, Pending::OpenSystem) && open_request(
            request,
            engine,
            system_name(),
            true,
        ),
        database_entries_are_sound(found_catalog(stores)),
        completes(floats, engine, stores, first, fuel, ended, after, result),
    ensures
        result == Ok::<Outcome, ConstDBError>(Outcome::Unit),
        ended.has_db(system_name()),
        forall|name: Seq<char>|
            found_catalog(stores).contains_key(
                #[trigger] (SystemKeyView::DBMetaKey { db: name }).bytes(),
            ) ==> ended.has_db(name),
        forall|name: Seq<char>|
            ended.has_db(name) ==> name == system_name() || found_catalog(stores).contains_key(
                (SystemKeyView::DBMetaKey { db: name }).bytes(),
            ),
{
    let catalog = found_catalog(stores);
    let prefix = SystemKeyView::DBMetaPrefix.bytes();
    let (request, pending) = (first->Ask_0, first->Ask_1);
    let (reply, engine1, mid, next) = choose|
        reply: Reply,
        engine1: EngineView,
        mid: Stores,
        next: Step,
    |
        #![trigger answers(floats, stores, request, reply, mid), resumed(engine, pending, reply, engine1, next)]
        answers(floats, stores, request, reply, mid) && resumed(engine, pending, reply, engine1, next)
            && completes(floats, engine1, mid, next, (fuel - 1) as nat, ended, after, result);
    assert(reply is Opened);
    assert(mid.keyspaces.contains_key((system_name(), None::<Seq<char>>)));
    assert(mid.keyspaces[(system_name(), None::<Seq<char>>)] == catalog);
    lemma_registers_adds(engine, system_name(), reply, engine1);
    let (request2, pending2) = (next->Ask_0, next->Ask_1);
    let (reply2, engine2, mid2, next2) = choose|
        reply2: Reply,
        engine2: EngineView,
        mid2: Stores,
        next2: Step,
    |
        #![trigger answers(floats, mid, request2, reply2, mid2), resumed(engine1, pending2, reply2, engine2, next2)]
        answers(floats, mid, request2, reply2, mid2) && resumed(engine1, pending2, reply2, engine2, next2)
            && completes(floats, engine2, mid2, next2, (fuel - 2) as nat, ended, after, result);
    let entries = reply2->Entries_0@;
    lemma_scanned_prefix(catalog, prefix, entries);
    assert(all_database_entries(entries));
    let found = discovered(entries)->0;
    let names = choose|names: Seq<String>|
        texts(names) == found && #[trigger] opens_next(engine1, names, 0, next2);
    lemma_opening_registers_all(
        floats,
        engine2,
        mid2,
        names,
        0,
        next2,
        (fuel - 2) as nat,
        ended,
        after,
        result,
    );
    assert forall|name: Seq<char>|
        catalog.contains_key(
            #[trigger] (SystemKeyView::DBMetaKey { db: name }).bytes(),
        ) implies ended.has_db(name) by {
        let key = (SystemKeyView::DBMetaKey { db: name }).bytes();
        assert(key.subrange(0, 1) =~= prefix);
        let i = choose|i: int| 0 <= i < entries.len() && (#[trigger] entries[i]).key@ == key;
        law_db_key_round_trip(name);
        assert(texts(names)[i] == names[i]@);
        assert(found[i] == name);
    }
    assert forall|name: Seq<char>| ended.has_db(name) implies name == system_name()
        || catalog.contains_key((SystemKeyView::DBMetaKey { db: name }).bytes()) by {
        if !engine2.has_db(name) {
            let i = choose|i: int| 0 <= i < texts(names).len() && texts(names)[i] == name;
            assert(found[i] == name);
            assert(catalog.contains_key(entries[i].key@));
            law_parsed_db_key_is_its_key(entries[i].key@);
        } else {
            let at = choose|at: int|
                0 <= at < engine2.instances.len() && (#[trigger] engine2.instances[at]).name
                    == name;
            assert(engine2.instances.len() == 1);
        }
    }
}

/// A startup on a catalog that holds, under the database tag, a key that is
/// not the key of a database entry ends with `InvalidStates`.
pub proof fn law_startup_surfaces_corruption(
    floats: spec_fn(ValueView) -> FloatReading,
    engine: EngineView,
    stores: Stores,
    first: Step,
    fuel: nat,
    ended: EngineView,
    after: Stores,
    result: Result<Outcome, ConstDBError>,
)
    requires
        engine.instances.len() == 0,
        first matches Step::Ask(request, Pending::OpenSystem) && open_request(
            request,
            engine,
            system_name(),
            true,
        ),
        !database_entries_are_sound(found_catalog(stores)),
        completes(floats, engine, stores, first, fuel, ended, after, result),
    ensures
        result matches Err(e) && e@ is InvalidStates,
{
    let catalog = found_catalog(stores);
    let prefix = SystemKeyView::DBMetaPrefix.bytes();
    let (request, pending) = (first->Ask_0, first->Ask_1);
    let (reply, engine1, mid, next) = choose|
        reply: Reply,
        engine1: EngineView,
        mid: Stores,
        next: Step,
    |
        #![trigger answers(floats, stores, request, reply, mid), resumed(engine, pending, reply, engine1, next)]
        answers(floats, stores, request, reply, mid) && resumed(engine, pending, reply, engine1, next)
            && completes(floats, engine1, mid, next, (fuel - 1) as nat, ended, after, result);
    assert(reply is Opened);
    assert(mid.keyspaces.contains_key((system_name(), None::<Seq<char>>)));
    assert(mid.keyspaces[(system_name(), None::<Seq<char>>)] == catalog);
    let (request2, pending2) = (next->Ask_0, next->Ask_1);
    let (reply2, engine2, mid2, next2) = choose|
        reply2: Reply,
        engine2: EngineView,
        mid2: Stores,
        next2: Step,
    |
        #![trigger answers(floats, mid, request2, reply2, mid2), resumed(engine1, pending2, reply2, engine2, next2)]
        answers(floats, mid, request2, reply2, mid2) && resumed(engine1, pending2, reply2, engine2, next2)
            && completes(floats, engine2, mid2, next2, (fuel - 2) as nat, ended, after, result);
    let entries = reply2->Entries_0@;
    lemma_scanned_prefix(catalog, prefix, entries);
    let key = choose|key: Seq<u8>|
        #![trigger catalog.contains_key(key)]
        catalog.contains_key(key) && has_prefix(key, prefix) && spec_parse_db_meta_key(key)
            is None;
    let i = choose|i: int| 0 <= i < entries.len() && (#[trigger] entries[i]).key@ == key;
    assert(!all_database_entries(entries));
}

/// Writing the catalog entry of a database or of a table keeps the database
/// entries of the catalog sound.
pub proof fn lemma_entries_stay_sound(
    catalog: Map<Seq<u8>, Seq<u8>>,
    key: SystemKeyView,
    value: Seq<u8>,
)
    requires
        database_entries_are_sound(catalog),
        key is DBMetaKey || key is TableMetaKey,
    ensures
        database_entries_are_sound(catalog.insert(key.bytes(), value)),
{
    let written = catalog.insert(key.bytes(), value);
    assert forall|other: Seq<u8>|
        #![trigger written.contains_key(other)]
        written.contains_key(other) && has_prefix(
            other,
            SystemKeyView::DBMetaPrefix.bytes(),
        ) implies spec_parse_db_meta_key(other) is Some by {
        if other == key.bytes() {
            if key is DBMetaKey {
                law_db_key_round_trip(key->DBMetaKey_db);
            } else {
                assert(other.subrange(0, 1)[0] == other[0]);
            }
        } else {
            assert(catalog.contains_key(other));
        }
    }
}

/// The engine has registered the database `name` and knows its store as
/// the stores hold it: where there is a store, the engine has it open and
/// knows the keyspace of every table in it.
pub open spec fn knows_store(engine: EngineView, stores: Stores, name: Seq<char>) -> bool {
    &&& engine.has_db(name)
    &&& stores.keyspaces.contains_key((name, None::<Seq<char>>)) ==> {
        &&& engine.instance(name).is_open()
        &&& forall|table: Seq<char>| #[trigger]
            stores.keyspaces.contains_key((name, Some(table))) ==> engine.instance(
                name,
            ).has_keyspace(table)
    }
}

/// A database that is registered on a truthful answer to the request that
/// opens its store is known as the stores hold it, and the databases that
/// were known stay known.
pub proof fn lemma_registers_knows(
    floats: spec_fn(ValueView) -> FloatReading,
    before: EngineView,
    stores: Stores,
    name: Seq<char>,
    request: Request,
    reply: Reply,
    after: EngineView,
    mid: Stores,
)
    requires
        before.wf(),
        !before.has_db(name),
        request matches Request::OpenStore { db, create, .. } && db@ == name && (create
            ==> stores.keyspaces.contains_key((name, None::<Seq<char>>))),
        answers(floats, stores, request, reply, mid),
        registers(before, name, reply, after),
    ensures
        after.wf(),
        mid == stores,
        knows_store(after, mid, name),
        forall|other: Seq<char>|
            before.has_db(other) ==> after.has_db(other) && after.instance(other)
                == before.instance(other),
{
    lemma_registers_adds(before, name, reply, after);
    let last = after.instances.len() - 1;
    let instance = after.instances[last];
    assert(instance.name == name && instance.wf());
    assert forall|i: int, j: int| 0 <= i < j < after.names().len() implies after.names()[i]
        != after.names()[j] by {
        if j < before.instances.len() {
            assert(before.names()[i] != before.names()[j]);
        } else {
            assert(before.instances[i].name == after.names()[i]);
        }
    }
    assert forall|i: int| 0 <= i < after.instances.len() implies (
    #[trigger] after.instances[i]).wf() by {
        if i < before.instances.len() {
            assert(after.instances[i] == before.instances[i]);
        }
    }
    lemma_position_is(after, last);
    assert(after.instance(name) == instance);
    if stores.keyspaces.contains_key((name, None::<Seq<char>>)) {
        let tables = reply->Opened_tables;
        let opened = choose|opened: InstanceView|
            after == before.with(opened) && #[trigger] opened_with(
                opened,
                name,
                before.path_of(name),
                texts(tables@),
            );
        assert(opened == instance);
        assert forall|table: Seq<char>| #[trigger]
            stores.keyspaces.contains_key((name, Some(table))) implies instance.has_keyspace(
            table,
        ) by {
            assert(texts(tables@).contains(table));
        }
    }
    assert forall|other: Seq<char>| before.has_db(other) implies after.has_db(other)
        && after.instance(other) == before.instance(other) by {
        let at = before.position(other);
        assert(after.instances[at] == before.instances[at]);
        lemma_position_is(after, at);
    }
}

/// Opening the databases of a list, one after the other, leaves every one
/// of them known as the stores hold it, and changes no store.
pub proof fn lemma_opening_knows_all(
    floats: spec_fn(ValueView) -> FloatReading,
    engine: EngineView,
    stores: Stores,
    names: Seq<String>,
    from: int,
    step: Step,
    fuel: nat,
    ended: EngineView,
    after: Stores,
    result: Result<Outcome, ConstDBError>,
    known: Seq<char>,
)
    requires
        engine.wf(),
        0 <= from <= names.len(),
        knows_store(engine, stores, known),
        opens_next(engine, names, from, step),
        completes(floats, engine, stores, step, fuel, ended, after, result),
        result is Ok,
    ensures
        ended.wf(),
        after == stores,
        knows_store(ended, after, known),
        forall|j: int|
            from <= j < names.len() && !engine.has_db((#[trigger] names[j])@) ==> knows_store(
                ended,
                after,
                names[j]@,
            ),
    decreases names.len() - from,
{
    let at = next_unregistered(engine, texts(names), from);
    lemma_next_unregistered(engine, texts(names), from);
    assert forall|j: int| from <= j < at implies engine.has_db((#[trigger] names[j])@) by {
        assert(texts(names)[j] == names[j]@);
    }
    if at < names.len() {
        assert(texts(names)[at] == names[at]@);
        let (request, pending) = (step->Ask_0, step->Ask_1);
        let (reply, resumed_engine, mid, next) = choose|
            reply: Reply,
            resumed_engine: EngineView,
            mid: Stores,
            next: Step,
        |
            #![trigger answers(floats, stores, request, reply, mid), resumed(engine, pending, reply, resumed_engine, next)]
            answers(floats, stores, request, reply, mid) && resumed(
                engine,
                pending,
                reply,
                resumed_engine,
                next,
            ) && completes(floats, resumed_engine, mid, next, (fuel - 1) as nat, ended, after, result);
        assert(mid == stores);
        lemma_registers_knows(floats, engine, stores, names[at]@, request, reply, resumed_engine, mid);
        assert(knows_store(resumed_engine, stores, known));
        lemma_opening_knows_all(
            floats,
            resumed_engine,
            mid,
            names,
            at + 1,
            next,
            (fuel - 1) as nat,
            ended,
            after,
            result,
            known,
        );
        lemma_opening_knows_all(
            floats,
            resumed_engine,
            mid,
            names,
            at + 1,
            next,
            (fuel - 1) as nat,
            ended,
            after,
            result,
            names[at]@,
        );
        assert forall|j: int|
            from <= j < names.len() && !engine.has_db((#[trigger] names[j])@) implies knows_store(
            ended,
            after,
            names[j]@,
        ) by {
            if j > at && resumed_engine.has_db(names[j]@) {
                assert(names[j]@ == names[at]@);
            }
        }
    }
}

/// A startup on stores that hold the system database, with sound database
/// entries in its catalog, ends with success and changes no store. The
/// engine then serves every table that the catalog lists and whose keyspace
/// the stores hold.
pub proof fn law_startup_serves_every_table(
    floats: spec_fn(ValueView) -> FloatReading,
    engine: EngineView,
    stores: Stores,
    first: Step,
    fuel: nat,
    ended: EngineView,
    after: Stores,
    result: Result<Outcome, ConstDBError>,
    db: Seq<char>,
    table: Seq<char>,
    settings: TableSettings,
)
    requires
        engine.instances.len() == 0,
        first matches Step::Ask(request, Pending::OpenSystem) && open_request(
            request,
            engine,
            system_name(),
            true,
        ),
        database_entries_are_sound(found_catalog(stores)),
        completes(floats, engine, stores, first, fuel, ended, after, result),
        stores.keyspaces.contains_key((system_name(), None::<Seq<char>>)),
        db == system_name() || found_catalog(stores).contains_key(
            (SystemKeyView::DBMetaKey { db }).bytes(),
        ),
        stores.keyspaces.contains_key((db, None::<Seq<char>>)),
        stores.keyspaces.contains_key((db, Some(table))),
        found_catalog(stores).contains_key((SystemKeyView::TableMetaKey { db, table }).bytes()),
        spec_read_table(
            found_catalog(stores)[(SystemKeyView::TableMetaKey { db, table }).bytes()],
        ) == Some(settings@),
    ensures
        result == Ok::<Outcome, ConstDBError>(Outcome::Unit),
        after == stores,
        serves(ended, after, db, table, settings),
{
    law_startup_finds_every_database(floats, engine, stores, first, fuel, ended, after, result);
    let catalog = found_catalog(stores);
    let prefix = SystemKeyView::DBMetaPrefix.bytes();
    let (request, pending) = (first->Ask_0, first->Ask_1);
    let (reply, engine1, mid, next) = choose|
        reply: Reply,
        engine1: EngineView,
        mid: Stores,
        next: Step,
    |
        #![trigger answers(floats, stores, request, reply, mid), resumed(engine, pending, reply, engine1, next)]
        answers(floats, stores, request, reply, mid) && resumed(engine, pending, reply, engine1, next)
            && completes(floats, engine1, mid, next, (fuel - 1) as nat, ended, after, result);
    assert(mid == stores);
    assert(engine.wf());
    lemma_registers_knows(floats, engine, stores, system_name(), request, reply, engine1, mid);
    let (request2, pending2) = (next->Ask_0, next->Ask_1);
    let (reply2, engine2, mid2, next2) = choose|
        reply2: Reply,
        engine2: EngineView,
        mid2: Stores,
        next2: Step,
    |
        #![trigger answers(floats, mid, request2, reply2, mid2), resumed(engine1, pending2, reply2, engine2, next2)]
        answers(floats, mid, request2, reply2, mid2) && resumed(engine1, pending2, reply2, engine2, next2)
            && completes(floats, engine2, mid2, next2, (fuel - 2) as nat, ended, after, result);
    let entries = reply2->Entries_0@;
    lemma_scanned_prefix(catalog, prefix, entries);
    assert(all_database_entries(entries));
    let found = discovered(entries)->0;
    let names = choose|names: Seq<String>|
        texts(names) == found && #[trigger] opens_next(engine1, names, 0, next2);
    lemma_opening_knows_all(
        floats,
        engine2,
        mid2,
        names,
        0,
        next2,
        (fuel - 2) as nat,
        ended,
        after,
        result,
        system_name(),
    );
    if db != system_name() {
        let key = (SystemKeyView::DBMetaKey { db }).bytes();
        assert(key.subrange(0, 1) =~= prefix);
        let i = choose|i: int| 0 <= i < entries.len() && (#[trigger] entries[i]).key@ == key;
        law_db_key_round_trip(db);
        assert(found.len() == entries.len());
        assert(texts(names).len() == names.len());
        assert(texts(names)[i] == names[i]@);
        assert(found[i] == db);
        assert(!engine2.has_db(names[i]@)) by {
            if engine2.has_db(db) {
                let at = choose|at: int|
                    0 <= at < engine2.instances.len() && (#[trigger] engine2.instances[at]).name
                        == db;
                assert(engine2.instances.len() == 1);
            }
        }
    }
}

/// A database whose catalog entry was written is registered again by the
/// next startup.
pub proof fn law_recorded_database_is_found_again(
    floats: spec_fn(ValueView) -> FloatReading,
    engine: EngineView,
    stores: Stores,
    name: Seq<char>,
    value: Seq<u8>,
    first: Step,
    fuel: nat,
    ended: EngineView,
    after: Stores,
    result: Result<Outcome, ConstDBError>,
)
    requires
        stores.keyspaces.contains_key((system_name(), None::<Seq<char>>)),
        database_entries_are_sound(found_catalog(stores)),
        engine.instances.len() == 0,
        first matches Step::Ask(request, Pending::OpenSystem) && open_request(
            request,
            engine,
            system_name(),
            true,
        ),
        completes(
            floats,
            engine,
            with_entry(stores, (SystemKeyView::DBMetaKey { db: name }).bytes(), value),
            first,
            fuel,
            ended,
            after,
            result,
        ),
    ensures
        result == Ok::<Outcome, ConstDBError>(Outcome::Unit),
        ended.has_db(name),
{
    let key = SystemKeyView::DBMetaKey { db: name };
    let written = with_entry(stores, key.bytes(), value);
    lemma_entries_stay_sound(found_catalog(stores), key, value);
    assert(found_catalog(written) == found_catalog(stores).insert(key.bytes(), value));
    law_startup_finds_every_database(floats, engine, written, first, fuel, ended, after, result);
}

/// After a startup the settings of every table that the catalog lists are
/// got back as they were stored, with the key fields in their order.
pub proof fn law_restarted_table_is_got_back(
    floats: spec_fn(ValueView) -> FloatReading,
    engine: EngineView,
    stores: Stores,
    first: Step,
    fuel: nat,
    ended: EngineView,
    after: Stores,
    result: Result<Outcome, ConstDBError>,
    db: Seq<char>,
    table: Seq<char>,
    settings: TableSettings,
    get: Step,
    left: EngineView,
    last: Stores,
    got: Result<Outcome, ConstDBError>,
)
    requires
        engine.instances.len() == 0,
        first matches Step::Ask(request, Pending::OpenSystem) && open_request(
            request,
            engine,
            system_name(),
            true,
        ),
        database_entries_are_sound(found_catalog(stores)),
        completes(floats, engine, stores, first, fuel, ended, after, result),
        stores.keyspaces.contains_key((system_name(), None::<Seq<char>>)),
        db == system_name() || found_catalog(stores).contains_key(
            (SystemKeyView::DBMetaKey { db }).bytes(),
        ),
        stores.keyspaces.contains_key((db, None::<Seq<char>>)),
        stores.keyspaces.contains_key((db, Some(table))),
        found_catalog(stores).contains_key((SystemKeyView::TableMetaKey { db, table }).bytes()),
        spec_read_table(
            found_catalog(stores)[(SystemKeyView::TableMetaKey { db, table }).bytes()],
        ) == Some(settings@),
        get_table_post(ended, db, table, get),
        completes(floats, ended, after, get, fuel, left, last, got),
    ensures
        got matches Ok(Outcome::Table(read)) && read@ == settings@,
        left == ended,
        last == stores,
{
    law_startup_serves_every_table(
        floats,
        engine,
        stores,
        first,
        fuel,
        ended,
        after,
        result,
        db,
        table,
        settings,
    );
    law_get_table_reads_the_settings(floats, ended, after, db, table, get, fuel, left, last, got);
}

/// A table that was created is served again after the next startup: the
/// stores that the creation left hold its keyspace and its catalog entry,
/// and a startup on them ends with success and serves the table with its
/// settings.
pub proof fn law_created_table_is_kept_by_restart(
    floats: spec_fn(ValueView) -> FloatReading,
    engine: EngineView,
    stores: Stores,
    db: Seq<char>,
    input: TableSettings,
    first: Step,
    fuel: nat,
    ended: EngineView,
    after: Stores,
    result: Result<Outcome, ConstDBError>,
)
    requires
        storable(input@),
        stores.keyspaces.contains_key((system_name(), None::<Seq<char>>)),
        stores.keyspaces.contains_key((db, None::<Seq<char>>)),
        database_entries_are_sound(found_catalog(stores)),
        db == system_name() || found_catalog(stores).contains_key(
            (SystemKeyView::DBMetaKey { db }).bytes(),
        ),
        engine.instances.len() == 0,
        first matches Step::Ask(request, Pending::OpenSystem) && open_request(
            request,
            engine,
            system_name(),
            true,
        ),
        completes(
            floats,
            engine,
            with_table(stores, db, input@.name, spec_write_table(input@)),
            first,
            fuel,
            ended,
            after,
            result,
        ),
    ensures
        result == Ok::<Outcome, ConstDBError>(Outcome::Unit),
        after == with_table(stores, db, input@.name, spec_write_table(input@)),
        serves(ended, after, db, input@.name, input),
{
    let key = SystemKeyView::TableMetaKey { db, table: input@.name };
    let stored = spec_write_table(input@);
    let written = with_table(stores, db, input@.name, stored);
    let catalog = (system_name(), None::<Seq<char>>);
    assert(catalog != (db, Some(input@.name)));
    assert((db, None::<Seq<char>>) != (db, Some(input@.name)));
    lemma_entries_stay_sound(found_catalog(stores), key, stored);
    assert(found_catalog(written) == found_catalog(stores).insert(key.bytes(), stored));
    law_table_record_round_trip(input@);
    law_startup_serves_every_table(
        floats,
        engine,
        written,
        first,
        fuel,
        ended,
        after,
        result,
        db,
        input@.name,
        input,
    );
}

} // verus!
