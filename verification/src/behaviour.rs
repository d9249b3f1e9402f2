//! What the operations do to the stores when the host answers truthfully.

use vstd::prelude::*;
use vstd::utf8::*;
use crate::engine::data::key_of;
use crate::engine::data::key_values_of;
use crate::engine::EngineView;
use crate::engine::resumed;
use crate::engine::startup::registers;
use crate::engine::system_name;
use crate::errors::ConstDBError;
use crate::model::FieldView;
use crate::model::TableSettings;
use crate::numbers::lex_less;
use crate::pk::KeyView;
use crate::protocol::Entry;
use crate::protocol::Operation;
use crate::protocol::option_bytes;
use crate::protocol::Outcome;
use crate::protocol::Reply;
use crate::protocol::Request;
use crate::protocol::Step;
use crate::protocol::texts;
use crate::range::has_prefix;
use crate::range::law_scan_range_is_prefix;
use crate::range::spec_upper_bound;
use crate::records::spec_read_table;
use crate::schema::FieldValue;
use crate::schema::FloatReading;
use crate::schema::has_float_key;
use crate::schema::ValueView;
use crate::system_db::SystemKeyView;

pub mod catalog;
pub mod data;
pub mod startup;

verus! {

/// The open stores as mathematical values: the entries of every keyspace,
/// by database and table. The table `None` names the default keyspace.
pub struct Stores {
    pub keyspaces: Map<(Seq<char>, Option<Seq<char>>), Map<Seq<u8>, Seq<u8>>>,
}

/// The place of a keyspace among the stores.
pub open spec fn place(db: String, table: Option<String>) -> (Seq<char>, Option<Seq<char>>) {
    (
        db@,
        match table {
            Some(name) => Some(name@),
            None => None,
        },
    )
}

/// The name under which a store lists its default keyspace.
pub open spec fn default_name() -> Seq<char> {
    "default"@
}

/// The value under `key`, if there is one.
pub open spec fn lookup(keyspace: Map<Seq<u8>, Seq<u8>>, key: Seq<u8>) -> Option<Seq<u8>> {
    if keyspace.contains_key(key) {
        Some(keyspace[key])
    } else {
        None
    }
}

/// `key` is at least `from` and, if `until` is given, less than `until`.
pub open spec fn in_range(key: Seq<u8>, from: Seq<u8>, until: Option<Seq<u8>>) -> bool {
    &&& !lex_less(key, from)
    &&& until matches Some(stop) ==> lex_less(key, stop)
}

/// `entries` are the entries of `keyspace` in the range, each once, in key
/// order.
pub open spec fn scanned(
    keyspace: Map<Seq<u8>, Seq<u8>>,
    from: Seq<u8>,
    until: Option<Seq<u8>>,
    entries: Seq<Entry>,
) -> bool {
    &&& forall|i: int|
        0 <= i < entries.len() ==> keyspace.contains_key((#[trigger] entries[i]).key@)
            && keyspace[entries[i].key@] == entries[i].value@ && in_range(
            entries[i].key@,
            from,
            until,
        )
    &&& forall|key: Seq<u8>|
        #![trigger keyspace.contains_key(key)]
        keyspace.contains_key(key) && in_range(key, from, until) ==> exists|i: int|
            0 <= i < entries.len() && (#[trigger] entries[i]).key@ == key
    &&& forall|i: int, j: int|
        0 <= i < j < entries.len() ==> lex_less(
            (#[trigger] entries[i]).key@,
            (#[trigger] entries[j]).key@,
        )
}

/// The stores without the keyspaces of the database `db`.
pub open spec fn without_store(stores: Stores, db: Seq<char>) -> Stores {
    Stores {
        keyspaces: stores.keyspaces.restrict(
            Set::new(|at: (Seq<char>, Option<Seq<char>>)| at.0 != db),
        ),
    }
}

/// The readings that the host gives for these values, one for each: the
/// host reads a value as a float in one way, `floats`, whatever the
/// operation.
pub open spec fn told(floats: spec_fn(ValueView) -> FloatReading, values: Seq<FieldValue>) -> Seq<
    FloatReading,
> {
    Seq::new(values.len(), |i: int| floats(values[i]@))
}

/// The readings that the host gives for the key values of an operation:
/// none where no key field of the table is a float.
pub open spec fn readings_for(
    floats: spec_fn(ValueView) -> FloatReading,
    keys: Seq<FieldView>,
    operation: Operation,
) -> Seq<FloatReading> {
    if has_float_key(keys) {
        match key_values_of(keys, operation) {
            Some(values) => Seq::new(values.len(), |i: int| floats(values[i])),
            None => Seq::empty(),
        }
    } else {
        Seq::empty()
    }
}

/// The key that an operation addresses when the host reads floats as
/// `floats` does.
pub open spec fn addressed_key(
    floats: spec_fn(ValueView) -> FloatReading,
    keys: Seq<FieldView>,
    operation: Operation,
) -> Option<KeyView> {
    key_of(keys, operation, readings_for(floats, keys, operation))
}

/// A truthful answer to a request on the records of the stores: what the
/// host replies, and what the stores hold afterwards. A store is open where
/// its default keyspace is held.
pub open spec fn answers(
    floats: spec_fn(ValueView) -> FloatReading,
    before: Stores, request: Request, reply: Reply, after: Stores) -> bool {
    match request {
        Request::Get { db, table, key } => {
            &&& after == before
            &&& if before.keyspaces.contains_key(place(db, table)) {
                reply matches Reply::Value(value) && option_bytes(value) == lookup(
                    before.keyspaces[place(db, table)],
                    key@,
                )
            } else {
                reply is Failed
            }
        },
        Request::Put { db, table, key, value } => {
            if before.keyspaces.contains_key(place(db, table)) {
                &&& reply is Done
                &&& after.keyspaces == before.keyspaces.insert(
                    place(db, table),
                    before.keyspaces[place(db, table)].insert(key@, value@),
                )
            } else {
                reply is Failed && after == before
            }
        },
        Request::Delete { db, table, key } => {
            if before.keyspaces.contains_key(place(db, table)) {
                &&& reply is Done
                &&& after.keyspaces == before.keyspaces.insert(
                    place(db, table),
                    before.keyspaces[place(db, table)].remove(key@),
                )
            } else {
                reply is Failed && after == before
            }
        },
        Request::Scan { db, table, from, until } => {
            &&& after == before
            &&& if before.keyspaces.contains_key(place(db, table)) {
                reply matches Reply::Entries(entries) && scanned(
                    before.keyspaces[place(db, table)],
                    from@,
                    option_bytes(until),
                    entries@,
                )
            } else {
                reply is Failed
            }
        },
        Request::ReadFloats { values } => {
            &&& after == before
            &&& reply matches Reply::Floats(readings) && readings@ == told(floats, values@)
        },
        Request::OpenStore { db, create, .. } => {
            if before.keyspaces.contains_key((db@, None)) {
                &&& after == before
                &&& reply matches Reply::Opened { tables } && forall|name: Seq<char>|
                    texts(tables@).contains(name) <==> name == default_name()
                        || before.keyspaces.contains_key((db@, Some(name)))
            } else if create {
                &&& after.keyspaces == before.keyspaces.insert((db@, None), Map::empty())
                &&& reply matches Reply::Opened { tables } && forall|name: Seq<char>|
                    texts(tables@).contains(name) <==> name == default_name()
            } else {
                after == before && reply is Absent
            }
        },
        Request::DestroyStore { db, .. } => {
            &&& reply is Done
            &&& after == without_store(before, db@)
        },
        Request::CreateKeyspace { db, table } => {
            if before.keyspaces.contains_key((db@, None)) && !before.keyspaces.contains_key(
                (db@, Some(table@)),
            ) {
                &&& reply is Done
                &&& after.keyspaces == before.keyspaces.insert((db@, Some(table@)), Map::empty())
            } else {
                reply is Failed && after == before
            }
        },
        Request::DropKeyspace { db, table } => {
            if before.keyspaces.contains_key((db@, Some(table@))) {
                &&& reply is Done
                &&& after.keyspaces == before.keyspaces.remove((db@, Some(table@)))
            } else {
                reply is Failed && after == before
            }
        },
    }
}

/// The operation that stands at `step` can end with `result`, leaving the
/// engine as `ended` and the stores as `after`, within `fuel` steps answered
/// truthfully.
pub open spec fn completes(
    floats: spec_fn(ValueView) -> FloatReading,
    engine: EngineView,
    before: Stores,
    step: Step,
    fuel: nat,
    ended: EngineView,
    after: Stores,
    result: Result<Outcome, ConstDBError>,
) -> bool
    decreases fuel,
{
    match step {
        Step::Done(outcome) => ended == engine && after == before && result == outcome,
        Step::Ask(request, pending) => fuel > 0 && exists|
            reply: Reply,
            resumed_engine: EngineView,
            mid: Stores,
            next: Step,
        |
            #![trigger answers(floats, before, request, reply, mid), resumed(engine, pending, reply, resumed_engine, next)]
            answers(floats, before, request, reply, mid) && resumed(
                engine,
                pending,
                reply,
                resumed_engine,
                next,
            ) && completes(floats, resumed_engine, mid, next, (fuel - 1) as nat, ended, after, result),
    }
}

/// The engine serves the table `table` of the database `db`: it has
/// registered the database and its keyspace, the catalog holds the settings
/// of the table, and the stores hold the catalog and the keyspace.
pub open spec fn serves(
    engine: EngineView,
    stores: Stores,
    db: Seq<char>,
    table: Seq<char>,
    settings: TableSettings,
) -> bool {
    let catalog = (system_name(), None::<Seq<char>>);
    let entry = (SystemKeyView::TableMetaKey { db, table }).bytes();
    &&& engine.has_db(db)
    &&& engine.catalog_ready()
    &&& engine.instance(db).has_keyspace(table)
    &&& stores.keyspaces.contains_key(catalog)
    &&& stores.keyspaces[catalog].contains_key(entry)
    &&& spec_read_table(stores.keyspaces[catalog][entry]) == Some(settings@)
    &&& stores.keyspaces.contains_key((db, Some(table)))
}

/// The stores with `value` under `key` in the keyspace of a table.
pub open spec fn with_record(
    stores: Stores,
    db: Seq<char>,
    table: Seq<char>,
    key: Seq<u8>,
    value: Seq<u8>,
) -> Stores {
    Stores {
        keyspaces: stores.keyspaces.insert(
            (db, Some(table)),
            stores.keyspaces[(db, Some(table))].insert(key, value),
        ),
    }
}

/// The records of a table.
pub open spec fn records(stores: Stores, db: Seq<char>, table: Seq<char>) -> Map<
    Seq<u8>,
    Seq<u8>,
> {
    stores.keyspaces[(db, Some(table))]
}

/// The stores without the record under `key` in the keyspace of a table.
pub open spec fn without_record(
    stores: Stores,
    db: Seq<char>,
    table: Seq<char>,
    key: Seq<u8>,
) -> Stores {
    Stores {
        keyspaces: stores.keyspaces.insert(
            (db, Some(table)),
            stores.keyspaces[(db, Some(table))].remove(key),
        ),
    }
}

/// `entries` are the records whose key begins with `prefix`, each once, in
/// key order.
pub open spec fn prefix_rows(
    keyspace: Map<Seq<u8>, Seq<u8>>,
    prefix: Seq<u8>,
    entries: Seq<Entry>,
) -> bool {
    &&& forall|i: int|
        0 <= i < entries.len() ==> keyspace.contains_key((#[trigger] entries[i]).key@)
            && keyspace[entries[i].key@] == entries[i].value@ && has_prefix(
            entries[i].key@,
            prefix,
        )
    &&& forall|key: Seq<u8>|
        #![trigger keyspace.contains_key(key)]
        keyspace.contains_key(key) && has_prefix(key, prefix) ==> exists|i: int|
            0 <= i < entries.len() && (#[trigger] entries[i]).key@ == key
    &&& forall|i: int, j: int|
        0 <= i < j < entries.len() ==> lex_less(
            (#[trigger] entries[i]).key@,
            (#[trigger] entries[j]).key@,
        )
}

/// A scan of the range of a prefix reads the records whose key begins with
/// the prefix.
pub proof fn lemma_scanned_prefix(
    keyspace: Map<Seq<u8>, Seq<u8>>,
    prefix: Seq<u8>,
    entries: Seq<Entry>,
)
    requires
        scanned(keyspace, prefix, spec_upper_bound(prefix), entries),
    ensures
        prefix_rows(keyspace, prefix, entries),
{
    assert forall|i: int| 0 <= i < entries.len() implies has_prefix(
        (#[trigger] entries[i]).key@,
        prefix,
    ) by {
        law_scan_range_is_prefix(entries[i].key@, prefix);
    }
    assert forall|key: Seq<u8>|
        #![trigger keyspace.contains_key(key)]
        keyspace.contains_key(key) && has_prefix(key, prefix) implies exists|i: int|
        0 <= i < entries.len() && (#[trigger] entries[i]).key@ == key by {
        law_scan_range_is_prefix(key, prefix);
    }
}

/// In a well-formed engine a database stands where its name is found.
pub proof fn lemma_position_is(engine: EngineView, at: int)
    requires
        engine.wf(),
        0 <= at < engine.instances.len(),
    ensures
        engine.position(engine.instances[at].name) == at,
        engine.has_db(engine.instances[at].name),
{
    let found = engine.position(engine.instances[at].name);
    assert(engine.names()[found] == engine.instances[at].name);
    assert(engine.names()[at] == engine.instances[at].name);
}

/// Registering a database adds it to the databases that are registered.
pub proof fn lemma_registers_adds(
    before: EngineView,
    name: Seq<char>,
    reply: Reply,
    after: EngineView,
)
    requires
        registers(before, name, reply, after),
    ensures
        after.has_db(name),
        forall|other: Seq<char>| before.has_db(other) ==> after.has_db(other),
        forall|other: Seq<char>| after.has_db(other) ==> before.has_db(other) || other == name,
{
    let last = after.instances.len() - 1;
    assert(after.instances[last].name == name);
    assert forall|other: Seq<char>| after.has_db(other) implies before.has_db(other) || other
        == name by {
        let i = choose|i: int|
            0 <= i < after.instances.len() && (#[trigger] after.instances[i]).name == other;
        if i < last {
            assert(before.instances[i].name == other);
        }
    }
    assert forall|other: Seq<char>| before.has_db(other) implies after.has_db(other) by {
        let i = choose|i: int|
            0 <= i < before.instances.len() && (#[trigger] before.instances[i]).name == other;
        assert(after.instances[i].name == other);
    }
}

} // verus!
