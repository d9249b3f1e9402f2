//! What the data operations do to the records of a table.

use vstd::prelude::*;
use vstd::utf8::*;
use crate::behaviour::addressed_key;
use crate::behaviour::answers;
use crate::behaviour::completes;
use crate::behaviour::lemma_scanned_prefix;
use crate::behaviour::lookup;
use crate::behaviour::prefix_rows;
use crate::behaviour::readings_for;
use crate::behaviour::records;
use crate::behaviour::serves;
use crate::behaviour::Stores;
use crate::behaviour::told;
use crate::behaviour::with_record;
use crate::behaviour::without_record;
use crate::engine::data::all_text;
use crate::engine::data::begins;
use crate::engine::data::joined_rows;
use crate::engine::data::key_values_of;
use crate::engine::data::keyed_post;
use crate::engine::data::loaded_post;
use crate::engine::EngineView;
use crate::engine::resumed;
use crate::engine::system_name;
use crate::errors::ConstDBError;
use crate::errors::ErrorView;
use crate::ids::IdView;
use crate::json::Json;
use crate::json::parsed_json;
use crate::json::printed_object;
use crate::model::TableSettings;
use crate::params::Params;
use crate::pk::KeyView;
use crate::protocol::Entry;
use crate::protocol::Operation;
use crate::protocol::Outcome;
use crate::protocol::Reply;
use crate::protocol::Step;
use crate::schema::FloatReading;
use crate::schema::has_float_key;
use crate::schema::law_record_and_params_make_the_same_key;
use crate::schema::lemma_leading_bound_is;
use crate::schema::Merge;
use crate::schema::param_values;
use crate::schema::record_values;
use crate::schema::spec_merge;
use crate::schema::values_view;
use crate::schema::ValueView;

verus! {

/// A data operation on a table that the engine serves reaches, after the
/// catalog entry of the table and the float readings of its key values, the
/// step that builds its key.
pub proof fn lemma_reaches_the_key(
    floats: spec_fn(ValueView) -> FloatReading,
    engine: EngineView,
    stores: Stores,
    db: Seq<char>,
    table: Seq<char>,
    settings: TableSettings,
    operation: Operation,
    first: Step,
    fuel: nat,
    ended: EngineView,
    after: Stores,
    result: Result<Outcome, ConstDBError>,
) -> (reached: (Step, nat, TableSettings))
    requires
        serves(engine, stores, db, table, settings),
        begins(engine, db, table, operation, first),
        completes(floats, engine, stores, first, fuel, ended, after, result),
    ensures
        reached.2@ == settings@,
        keyed_post(
            engine,
            db,
            table,
            operation,
            reached.2,
            readings_for(floats, settings@.primary_keys, operation),
            reached.0,
        ),
        completes(floats, engine, stores, reached.0, reached.1, ended, after, result),
{
    let keys = settings@.primary_keys;
    let (request, pending) = (first->Ask_0, first->Ask_1);
    let (reply1, engine1, mid1, next1) = choose|
        reply1: Reply,
        engine1: EngineView,
        mid1: Stores,
        next1: Step,
    |
        #![trigger answers(floats, stores, request, reply1, mid1), resumed(engine, pending, reply1, engine1, next1)]
        answers(floats, stores, request, reply1, mid1) && resumed(
            engine,
            pending,
            reply1,
            engine1,
            next1,
        ) && completes(floats, engine1, mid1, next1, (fuel - 1) as nat, ended, after, result);
    assert(engine1 == engine && mid1 == stores);
    let loaded = choose|loaded: TableSettings|
        loaded@ == settings@ && #[trigger] loaded_post(engine, db, table, operation, loaded, next1);
    if has_float_key(keys) && key_values_of(keys, operation) is Some {
        let expected = key_values_of(keys, operation)->0;
        let (request2, pending2) = (next1->Ask_0, next1->Ask_1);
        let (reply2, engine2, mid2, next2) = choose|
            reply2: Reply,
            engine2: EngineView,
            mid2: Stores,
            next2: Step,
        |
            #![trigger answers(floats, stores, request2, reply2, mid2), resumed(engine, pending2, reply2, engine2, next2)]
            answers(floats, stores, request2, reply2, mid2) && resumed(
                engine,
                pending2,
                reply2,
                engine2,
                next2,
            ) && completes(floats, engine2, mid2, next2, (fuel - 2) as nat, ended, after, result);
        assert(engine2 == engine && mid2 == stores);
        let values = request2->ReadFloats_values;
        let kept = pending2->ReadFloats_settings;
        assert(told(floats, values@) =~= readings_for(floats, keys, operation)) by {
            assert forall|i: int| 0 <= i < values@.len() implies values@[i]@ == expected[i] by {
                assert(values_view(values@)[i] == values@[i]@);
            }
        }
        (next2, (fuel - 2) as nat, kept)
    } else {
        (next1, (fuel - 1) as nat, loaded)
    }
}

/// An insert that ends has written the record under the key that the
/// record makes, and nothing else; it fails only where the record makes no
/// key, and then writes nothing.
pub proof fn law_insert_stores_the_record(
    floats: spec_fn(ValueView) -> FloatReading,
    engine: EngineView,
    stores: Stores,
    db: Seq<char>,
    table: Seq<char>,
    settings: TableSettings,
    data: Vec<u8>,
    first: Step,
    fuel: nat,
    ended: EngineView,
    after: Stores,
    result: Result<Outcome, ConstDBError>,
)
    requires
        serves(engine, stores, db, table, settings),
        begins(engine, db, table, Operation::Insert { data }, first),
        completes(floats, engine, stores, first, fuel, ended, after, result),
    ensures
        ended == engine,
        match addressed_key(floats, settings@.primary_keys, Operation::Insert { data }) {
            Some(key) => result == Ok::<Outcome, ConstDBError>(Outcome::Unit) && after
                == with_record(stores, db, table, key.bytes(), data@),
            None => result is Err && after == stores,
        },
{
    let operation = Operation::Insert { data };
    let (keyed, left, kept) = lemma_reaches_the_key(
        floats,
        engine,
        stores,
        db,
        table,
        settings,
        operation,
        first,
        fuel,
        ended,
        after,
        result,
    );
    match addressed_key(floats, settings@.primary_keys, operation) {
        Some(key) => {
            let (request2, pending2) = (keyed->Ask_0, keyed->Ask_1);
            let (reply2, engine2, mid2, next2) = choose|
                reply2: Reply,
                engine2: EngineView,
                mid2: Stores,
                next2: Step,
            |
                #![trigger answers(floats, stores, request2, reply2, mid2), resumed(engine, pending2, reply2, engine2, next2)]
                answers(floats, stores, request2, reply2, mid2) && resumed(
                    engine,
                    pending2,
                    reply2,
                    engine2,
                    next2,
                ) && completes(floats, engine2, mid2, next2, (left - 1) as nat, ended, after, result);
            assert(engine2 == engine);
            assert(mid2 == with_record(stores, db, table, key.bytes(), data@));
        },
        None => {},
    }
}

/// A lookup by key changes nothing. With a complete key it ends with the
/// record under that key as text, or with `NotFound` where there is none.
/// With a prefix it ends with the records whose key begins with the prefix,
/// in key order, as the text of a JSON array.
pub proof fn law_query_reads_the_records(
    floats: spec_fn(ValueView) -> FloatReading,
    engine: EngineView,
    stores: Stores,
    db: Seq<char>,
    table: Seq<char>,
    settings: TableSettings,
    params: Params,
    first: Step,
    fuel: nat,
    ended: EngineView,
    after: Stores,
    result: Result<Outcome, ConstDBError>,
)
    requires
        serves(engine, stores, db, table, settings),
        begins(engine, db, table, Operation::Query { params }, first),
        completes(floats, engine, stores, first, fuel, ended, after, result),
    ensures
        ended == engine,
        after == stores,
        match addressed_key(floats, settings@.primary_keys, Operation::Query { params }) {
            Some(KeyView::Complete(key)) => match lookup(records(stores, db, table), key) {
                Some(record) => if valid_utf8(record) {
                    result matches Ok(Outcome::Text(text)) && text@ == decode_utf8(record)
                } else {
                    result matches Err(e) && e@ is InvalidStates
                },
                None => result matches Err(e) && e@ == ErrorView::NotFound(IdView::Data),
            },
            Some(KeyView::Prefix(prefix)) => exists|entries: Seq<Entry>| #[trigger]
                prefix_rows(records(stores, db, table), prefix, entries) && if all_text(entries) {
                    result matches Ok(Outcome::Text(text)) && text@ == seq!['['] + joined_rows(
                        entries,
                        entries.len() as int,
                    ) + seq![']']
                } else {
                    result matches Err(e) && e@ is InvalidStates
                },
            None => result matches Err(e) && e@ is InvalidArguments,
        },
{
    let operation = Operation::Query { params };
    let (keyed, left, kept) = lemma_reaches_the_key(
        floats,
        engine,
        stores,
        db,
        table,
        settings,
        operation,
        first,
        fuel,
        ended,
        after,
        result,
    );
    match addressed_key(floats, settings@.primary_keys, operation) {
        Some(key) => {
            let (request2, pending2) = (keyed->Ask_0, keyed->Ask_1);
            let (reply2, engine2, mid2, next2) = choose|
                reply2: Reply,
                engine2: EngineView,
                mid2: Stores,
                next2: Step,
            |
                #![trigger answers(floats, stores, request2, reply2, mid2), resumed(engine, pending2, reply2, engine2, next2)]
                answers(floats, stores, request2, reply2, mid2) && resumed(
                    engine,
                    pending2,
                    reply2,
                    engine2,
                    next2,
                ) && completes(floats, engine2, mid2, next2, (left - 1) as nat, ended, after, result);
            assert(engine2 == engine);
            assert(mid2 == stores);
            if key is Prefix {
                let prefix = key->Prefix_0;
                let entries = reply2->Entries_0@;
                lemma_scanned_prefix(records(stores, db, table), prefix, entries);
            }
        },
        None => {},
    }
}

/// An update changes nothing but the record that its key addresses: where
/// the record and the patch are objects and the patch names no key field,
/// the record becomes the merge of the patch into what it was, written as
/// JSON text. It fails with `NotFound` where there is no such record, and
/// with `InvalidArguments` where the key is a prefix, where the patch names
/// a key field and where the record or the patch is no object.
pub proof fn law_update_merges_the_patch(
    floats: spec_fn(ValueView) -> FloatReading,
    engine: EngineView,
    stores: Stores,
    db: Seq<char>,
    table: Seq<char>,
    settings: TableSettings,
    data: Vec<u8>,
    params: Params,
    first: Step,
    fuel: nat,
    ended: EngineView,
    after: Stores,
    result: Result<Outcome, ConstDBError>,
)
    requires
        serves(engine, stores, db, table, settings),
        begins(engine, db, table, Operation::Update { data, params }, first),
        completes(floats, engine, stores, first, fuel, ended, after, result),
    ensures
        ended == engine,
        match addressed_key(floats, settings@.primary_keys, Operation::Update { data, params }) {
            Some(KeyView::Complete(key)) => match lookup(records(stores, db, table), key) {
                Some(record) => match spec_merge(settings@.primary_keys, record, data@) {
                    Merge::Merged(members) => match printed_object(members) {
                        Some(text) => result == Ok::<Outcome, ConstDBError>(Outcome::Unit)
                            && after == with_record(stores, db, table, key, text) && valid_utf8(
                            text,
                        ),
                        None => result matches Err(e) && e@ is InvalidStates && after == stores,
                    },
                    Merge::Malformed => result matches Err(e) && e@ is InvalidStates && after
                        == stores,
                    _ => result matches Err(e) && e@ is InvalidArguments && after == stores,
                },
                None => result matches Err(e) && e@ == ErrorView::NotFound(IdView::Data) && after
                    == stores,
            },
            _ => result matches Err(e) && e@ is InvalidArguments && after == stores,
        },
{
    let operation = Operation::Update { data, params };
    let (keyed, left, kept) = lemma_reaches_the_key(
        floats,
        engine,
        stores,
        db,
        table,
        settings,
        operation,
        first,
        fuel,
        ended,
        after,
        result,
    );
    let built = addressed_key(floats, settings@.primary_keys, operation);
    if built is Some && built->0 is Complete {
        let key = built->0->Complete_0;
        let (request2, pending2) = (keyed->Ask_0, keyed->Ask_1);
        let (reply2, engine2, mid2, next2) = choose|
            reply2: Reply,
            engine2: EngineView,
            mid2: Stores,
            next2: Step,
        |
            #![trigger answers(floats, stores, request2, reply2, mid2), resumed(engine, pending2, reply2, engine2, next2)]
            answers(floats, stores, request2, reply2, mid2) && resumed(
                engine,
                pending2,
                reply2,
                engine2,
                next2,
            ) && completes(floats, engine2, mid2, next2, (left - 1) as nat, ended, after, result);
        assert(engine2 == engine);
        assert(mid2 == stores);
        if next2 is Ask {
            let (request3, pending3) = (next2->Ask_0, next2->Ask_1);
            let (reply3, engine3, mid3, next3) = choose|
                reply3: Reply,
                engine3: EngineView,
                mid3: Stores,
                next3: Step,
            |
                #![trigger answers(floats, stores, request3, reply3, mid3), resumed(engine, pending3, reply3, engine3, next3)]
                answers(floats, stores, request3, reply3, mid3) && resumed(
                    engine,
                    pending3,
                    reply3,
                    engine3,
                    next3,
                ) && completes(floats, engine3, mid3, next3, (left - 2) as nat, ended, after, result);
            assert(engine3 == engine);
            let members = spec_merge(
                settings@.primary_keys,
                records(stores, db, table)[key],
                data@,
            )->Merged_0;
            assert(mid3 == with_record(stores, db, table, key, printed_object(members)->0));
        }
    }
}

/// A delete changes nothing but the record that its key addresses, which
/// it removes. It fails with `NotFound` where there is no such record, and
/// with `InvalidArguments` where the key is a prefix.
pub proof fn law_delete_removes_the_record(
    floats: spec_fn(ValueView) -> FloatReading,
    engine: EngineView,
    stores: Stores,
    db: Seq<char>,
    table: Seq<char>,
    settings: TableSettings,
    params: Params,
    first: Step,
    fuel: nat,
    ended: EngineView,
    after: Stores,
    result: Result<Outcome, ConstDBError>,
)
    requires
        serves(engine, stores, db, table, settings),
        begins(engine, db, table, Operation::Delete { params }, first),
        completes(floats, engine, stores, first, fuel, ended, after, result),
    ensures
        ended == engine,
        match addressed_key(floats, settings@.primary_keys, Operation::Delete { params }) {
            Some(KeyView::Complete(key)) => if records(stores, db, table).contains_key(key) {
                result == Ok::<Outcome, ConstDBError>(Outcome::Unit) && after == without_record(
                    stores,
                    db,
                    table,
                    key,
                )
            } else {
                result matches Err(e) && e@ == ErrorView::NotFound(IdView::Data) && after
                    == stores
            },
            _ => result matches Err(e) && e@ is InvalidArguments && after == stores,
        },
{
    let operation = Operation::Delete { params };
    let (keyed, left, kept) = lemma_reaches_the_key(
        floats,
        engine,
        stores,
        db,
        table,
        settings,
        operation,
        first,
        fuel,
        ended,
        after,
        result,
    );
    let built = addressed_key(floats, settings@.primary_keys, operation);
    if built is Some && built->0 is Complete {
        let key = built->0->Complete_0;
        let (request2, pending2) = (keyed->Ask_0, keyed->Ask_1);
        let (reply2, engine2, mid2, next2) = choose|
            reply2: Reply,
            engine2: EngineView,
            mid2: Stores,
            next2: Step,
        |
            #![trigger answers(floats, stores, request2, reply2, mid2), resumed(engine, pending2, reply2, engine2, next2)]
            answers(floats, stores, request2, reply2, mid2) && resumed(
                engine,
                pending2,
                reply2,
                engine2,
                next2,
            ) && completes(floats, engine2, mid2, next2, (left - 1) as nat, ended, after, result);
        assert(engine2 == engine);
        assert(mid2 == stores);
        if next2 is Ask {
            let (request3, pending3) = (next2->Ask_0, next2->Ask_1);
            let (reply3, engine3, mid3, next3) = choose|
                reply3: Reply,
                engine3: EngineView,
                mid3: Stores,
                next3: Step,
            |
                #![trigger answers(floats, stores, request3, reply3, mid3), resumed(engine, pending3, reply3, engine3, next3)]
                answers(floats, stores, request3, reply3, mid3) && resumed(
                    engine,
                    pending3,
                    reply3,
                    engine3,
                    next3,
                ) && completes(floats, engine3, mid3, next3, (left - 2) as nat, ended, after, result);
            assert(engine3 == engine);
            assert(mid3 == without_record(stores, db, table, key));
        }
    }
}

/// The record names every key field, with the text that the parameters
/// bind to it.
pub open spec fn addressed_by(settings: TableSettings, data: Seq<u8>, params: Params) -> bool {
    parsed_json(data) matches Some(Json::Object(members)) && forall|i: int|
        0 <= i < settings@.primary_keys.len() ==> members.contains_key(
            (#[trigger] settings@.primary_keys[i]).name,
        ) && params@.contains_key(settings@.primary_keys[i].name)
            && members[settings@.primary_keys[i].name] == Json::Text(
            params@[settings@.primary_keys[i].name],
        )
}

/// Writing a record of a table leaves the engine serving the table.
pub proof fn lemma_still_serves(
    engine: EngineView,
    stores: Stores,
    db: Seq<char>,
    table: Seq<char>,
    settings: TableSettings,
    key: Seq<u8>,
    value: Seq<u8>,
)
    requires
        serves(engine, stores, db, table, settings),
    ensures
        serves(engine, with_record(stores, db, table, key, value), db, table, settings),
        serves(engine, without_record(stores, db, table, key), db, table, settings),
{
    let catalog = (system_name(), None::<Seq<char>>);
    assert(catalog != (db, Some(table)));
}

/// A record and the parameters that address it make the same key, whatever
/// the types of the key fields.
pub proof fn lemma_same_address(
    floats: spec_fn(ValueView) -> FloatReading,
    settings: TableSettings,
    data: Vec<u8>,
    params: Params,
)
    requires
        addressed_by(settings, data@, params),
    ensures
        addressed_key(floats, settings@.primary_keys, Operation::Insert { data })
            == addressed_key(floats, settings@.primary_keys, Operation::Query { params }),
{
    let keys = settings@.primary_keys;
    let members = parsed_json(data@)->0->Object_0;
    lemma_leading_bound_is(keys, members.dom(), keys.len() as int);
    lemma_leading_bound_is(keys, params@.dom(), keys.len() as int);
    assert(record_values(keys, members) =~= param_values(keys, params@));
    law_record_and_params_make_the_same_key(
        keys,
        data@,
        params@,
        readings_for(floats, keys, Operation::Query { params }),
    );
}

/// A record that was inserted is found under the key of its key fields.
pub proof fn law_inserted_record_is_found(
    floats: spec_fn(ValueView) -> FloatReading,
    engine: EngineView,
    stores: Stores,
    db: Seq<char>,
    table: Seq<char>,
    settings: TableSettings,
    data: Vec<u8>,
    params: Params,
    insert: Step,
    query: Step,
    fuel: nat,
    between: Stores,
    after: Stores,
    inserted: Result<Outcome, ConstDBError>,
    found: Result<Outcome, ConstDBError>,
)
    requires
        serves(engine, stores, db, table, settings),
        addressed_by(settings, data@, params),
        valid_utf8(data@),
        begins(engine, db, table, Operation::Insert { data }, insert),
        completes(floats, engine, stores, insert, fuel, engine, between, inserted),
        inserted is Ok,
        begins(engine, db, table, Operation::Query { params }, query),
        completes(floats, engine, between, query, fuel, engine, after, found),
    ensures
        found matches Ok(Outcome::Text(text)) && text@ == decode_utf8(data@),
        after == between,
{
    let keys = settings@.primary_keys;
    law_insert_stores_the_record(
        floats,
        engine,
        stores,
        db,
        table,
        settings,
        data,
        insert,
        fuel,
        engine,
        between,
        inserted,
    );
    lemma_same_address(floats, settings, data, params);
    let key = addressed_key(floats, keys, Operation::Insert { data })->0;
    lemma_still_serves(engine, stores, db, table, settings, key.bytes(), data@);
    law_query_reads_the_records(
        floats,
        engine,
        between,
        db,
        table,
        settings,
        params,
        query,
        fuel,
        engine,
        after,
        found,
    );
}

/// A record that was deleted is not found any more.
pub proof fn law_deleted_record_is_not_found(
    floats: spec_fn(ValueView) -> FloatReading,
    engine: EngineView,
    stores: Stores,
    db: Seq<char>,
    table: Seq<char>,
    settings: TableSettings,
    params: Params,
    delete: Step,
    query: Step,
    fuel: nat,
    between: Stores,
    after: Stores,
    deleted: Result<Outcome, ConstDBError>,
    found: Result<Outcome, ConstDBError>,
)
    requires
        serves(engine, stores, db, table, settings),
        begins(engine, db, table, Operation::Delete { params }, delete),
        completes(floats, engine, stores, delete, fuel, engine, between, deleted),
        deleted is Ok,
        begins(engine, db, table, Operation::Query { params }, query),
        completes(floats, engine, between, query, fuel, engine, after, found),
    ensures
        found matches Err(e) && e@ == ErrorView::NotFound(IdView::Data),
{
    let keys = settings@.primary_keys;
    law_delete_removes_the_record(
        floats,
        engine,
        stores,
        db,
        table,
        settings,
        params,
        delete,
        fuel,
        engine,
        between,
        deleted,
    );
    let key = addressed_key(floats, keys, Operation::Delete { params })->0->Complete_0;
    lemma_still_serves(engine, stores, db, table, settings, key, Seq::empty());
    law_query_reads_the_records(
        floats,
        engine,
        between,
        db,
        table,
        settings,
        params,
        query,
        fuel,
        engine,
        after,
        found,
    );
}

/// A record that was updated is found as the merge of the patch into what
/// it was, written as JSON text.
pub proof fn law_updated_record_is_found(
    floats: spec_fn(ValueView) -> FloatReading,
    engine: EngineView,
    stores: Stores,
    db: Seq<char>,
    table: Seq<char>,
    settings: TableSettings,
    data: Vec<u8>,
    params: Params,
    update: Step,
    query: Step,
    fuel: nat,
    between: Stores,
    after: Stores,
    updated: Result<Outcome, ConstDBError>,
    found: Result<Outcome, ConstDBError>,
)
    requires
        serves(engine, stores, db, table, settings),
        begins(engine, db, table, Operation::Update { data, params }, update),
        completes(floats, engine, stores, update, fuel, engine, between, updated),
        updated is Ok,
        begins(engine, db, table, Operation::Query { params }, query),
        completes(floats, engine, between, query, fuel, engine, after, found),
    ensures
        addressed_key(floats, settings@.primary_keys, Operation::Query { params }) matches Some(
            KeyView::Complete(key),
        ) && lookup(records(stores, db, table), key) matches Some(record) && spec_merge(
            settings@.primary_keys,
            record,
            data@,
        ) matches Merge::Merged(members) && printed_object(members) matches Some(text) && (
        found matches Ok(Outcome::Text(read)) && read@ == decode_utf8(text)),
        after == between,
{
    let keys = settings@.primary_keys;
    law_update_merges_the_patch(
        floats,
        engine,
        stores,
        db,
        table,
        settings,
        data,
        params,
        update,
        fuel,
        engine,
        between,
        updated,
    );
    let key = addressed_key(floats, keys, Operation::Update { data, params })->0->Complete_0;
    let record = records(stores, db, table)[key];
    let members = spec_merge(keys, record, data@)->Merged_0;
    let text = printed_object(members)->0;
    lemma_still_serves(engine, stores, db, table, settings, key, text);
    law_query_reads_the_records(
        floats,
        engine,
        between,
        db,
        table,
        settings,
        params,
        query,
        fuel,
        engine,
        after,
        found,
    );
}

} // verus!
