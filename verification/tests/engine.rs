use constdb::engine::Engine;
use constdb::engine::Settings;
use constdb::errors::ConstDBError;
use constdb::ids::Id;
use constdb::model::DataType;
use constdb::model::Field;
use constdb::model::TableSettings;
use constdb::params::Params;
use constdb::protocol::Entry;
use constdb::protocol::Outcome;
use constdb::protocol::Reply;
use constdb::protocol::Request;
use constdb::protocol::Step;
use constdb::schema::FieldValue;
use constdb::schema::FloatReading;
use std::collections::BTreeMap;

type Keyspace = BTreeMap<Vec<u8>, Vec<u8>>;
type Store = BTreeMap<String, Keyspace>;

/// An in-memory stand-in for the stores on disk, by directory.
#[derive(Default)]
struct Host {
    disk: BTreeMap<String, Store>,
    open: BTreeMap<String, String>,
    log: Vec<Request>,
}

fn keyspace_name(table: &Option<String>) -> String {
    table.clone().unwrap_or_else(|| "default".to_string())
}

fn reading(value: &FieldValue) -> FloatReading {
    match value {
        FieldValue::Text(text) => FloatReading {
            single: text.parse::<f32>().ok().map(|f| f.to_bits()),
            double: text.parse::<f64>().ok().map(|f| f.to_bits()),
        },
        FieldValue::Number { double: Some(bits), .. } => {
            let double = f64::from_bits(*bits);
            let single = if double >= f32::MIN as f64 && double <= f32::MAX as f64 {
                Some((double as f32).to_bits())
            } else {
                None
            };
            FloatReading { single, double: Some(*bits) }
        }
        _ => FloatReading { single: None, double: None },
    }
}

impl Host {
    fn keyspace(&mut self, db: &str, table: &Option<String>) -> Option<&mut Keyspace> {
        let path = self.open.get(db)?.clone();
        self.disk.get_mut(&path)?.get_mut(&keyspace_name(table))
    }

    fn perform(&mut self, request: Request) -> Reply {
        self.log.push(request.clone());
        match request {
            Request::OpenStore { db, path, create } => {
                if !self.disk.contains_key(&path) {
                    if !create {
                        return Reply::Absent;
                    }
                    let mut store = Store::new();
                    store.insert("default".to_string(), Keyspace::new());
                    self.disk.insert(path.clone(), store);
                }
                self.open.insert(db, path.clone());
                Reply::Opened { tables: self.disk[&path].keys().cloned().collect() }
            }
            Request::DestroyStore { db, path } => {
                self.open.remove(&db);
                self.disk.remove(&path);
                Reply::Done
            }
            Request::CreateKeyspace { db, table } => {
                let path = match self.open.get(&db) {
                    Some(path) => path.clone(),
                    None => return Reply::Failed("store not open".to_string()),
                };
                let store = self.disk.get_mut(&path).unwrap();
                if store.contains_key(&table) {
                    return Reply::Failed("keyspace exists".to_string());
                }
                store.insert(table, Keyspace::new());
                Reply::Done
            }
            Request::DropKeyspace { db, table } => {
                let path = match self.open.get(&db) {
                    Some(path) => path.clone(),
                    None => return Reply::Failed("store not open".to_string()),
                };
                match self.disk.get_mut(&path).unwrap().remove(&table) {
                    Some(_) => Reply::Done,
                    None => Reply::Failed("no such keyspace".to_string()),
                }
            }
            Request::Get { db, table, key } => match self.keyspace(&db, &table) {
                Some(keyspace) => Reply::Value(keyspace.get(&key).cloned()),
                None => Reply::Failed("no such keyspace".to_string()),
            },
            Request::Put { db, table, key, value } => match self.keyspace(&db, &table) {
                Some(keyspace) => {
                    keyspace.insert(key, value);
                    Reply::Done
                }
                None => Reply::Failed("no such keyspace".to_string()),
            },
            Request::Delete { db, table, key } => match self.keyspace(&db, &table) {
                Some(keyspace) => {
                    keyspace.remove(&key);
                    Reply::Done
                }
                None => Reply::Failed("no such keyspace".to_string()),
            },
            Request::Scan { db, table, from, until } => match self.keyspace(&db, &table) {
                Some(keyspace) => Reply::Entries(
                    keyspace
                        .iter()
                        .filter(|(key, _)| {
                            **key >= from && until.as_ref().map_or(true, |stop| *key < stop)
                        })
                        .map(|(key, value)| Entry { key: key.clone(), value: value.clone() })
                        .collect(),
                ),
                None => Reply::Failed("no such keyspace".to_string()),
            },
            Request::ReadFloats { values } => Reply::Floats(values.iter().map(reading).collect()),
        }
    }

    fn run(&mut self, engine: &mut Engine, first: Step) -> Result<Outcome, ConstDBError> {
        let mut step = first;
        loop {
            match step {
                Step::Ask(request, pending) => {
                    let reply = self.perform(request);
                    step = engine.resume(pending, reply);
                }
                Step::Done(result) => return result,
            }
        }
    }

    fn start(&mut self) -> Engine {
        self.open.clear();
        let (mut engine, first) = Engine::new(Settings { root: "/data".to_string() });
        assert_eq!(self.run(&mut engine, first), Ok(Outcome::Unit));
        engine
    }
}

fn params(pairs: &[(&str, &str)]) -> Params {
    let mut params = Params::new();
    for (name, value) in pairs {
        params.insert(name, value);
    }
    params
}

fn orders() -> TableSettings {
    TableSettings::new("orders", vec![Field::new("id", DataType::String)])
}

fn json(bytes: &[u8]) -> serde_json::Value {
    serde_json::from_slice(bytes).unwrap()
}

fn text_of(outcome: Result<Outcome, ConstDBError>) -> String {
    match outcome {
        Ok(Outcome::Text(text)) => text,
        other => panic!("no text: {:?}", other),
    }
}

fn shop(host: &mut Host) -> Engine {
    let mut engine = host.start();
    let step = engine.create_db("shop");
    assert!(host.run(&mut engine, step).is_ok());
    let step = engine.create_table("shop", &orders());
    assert_eq!(host.run(&mut engine, step), Ok(Outcome::Unit));
    engine
}

#[test]
fn startup_asks_for_the_system_store_first() {
    let (engine, first) = Engine::new(Settings { root: "/data".to_string() });
    assert!(!engine.db_exists("system"));
    match first {
        Step::Ask(Request::OpenStore { db, path, create }, _) => {
            assert_eq!(db, "system");
            assert_eq!(path, "/data/system");
            assert!(create);
        }
        other => panic!("unexpected step: {:?}", other),
    }
}

#[test]
fn startup_registers_the_system_database() {
    let mut host = Host::default();
    let engine = host.start();
    assert!(engine.db_exists("system"));
    assert!(!engine.db_exists("shop"));
    let listed = engine.list_db().unwrap();
    assert_eq!(listed.len(), 1);
    assert_eq!(listed[0].name, "system");
}

#[test]
fn startup_scans_the_database_entries_only() {
    let mut host = Host::default();
    host.start();
    let scan = host.log.iter().find(|request| matches!(request, Request::Scan { .. })).unwrap();
    assert_eq!(
        *scan,
        Request::Scan {
            db: "system".to_string(),
            table: None,
            from: vec![b'd'],
            until: Some(vec![b'e']),
        }
    );
}

#[test]
fn end_to_end_shop_orders() {
    let mut host = Host::default();
    let mut engine = host.start();

    let step = engine.create_db("shop");
    match host.run(&mut engine, step) {
        Ok(Outcome::Database(db)) => assert_eq!(db.name, "shop"),
        other => panic!("unexpected outcome: {:?}", other),
    }
    let step = engine.create_table("shop", &orders());
    assert_eq!(host.run(&mut engine, step), Ok(Outcome::Unit));

    let record = br#"{"id":"A1","amount":5}"#.to_vec();
    let step = engine.insert("shop", "orders", record.clone());
    assert_eq!(host.run(&mut engine, step), Ok(Outcome::Unit));

    let step = engine.query_by_key("shop", "orders", params(&[("id", "A1")]));
    assert_eq!(text_of(host.run(&mut engine, step)).into_bytes(), record);

    let step =
        engine.update("shop", "orders", br#"{"amount":9}"#.to_vec(), params(&[("id", "A1")]));
    assert_eq!(host.run(&mut engine, step), Ok(Outcome::Unit));

    let step = engine.query_by_key("shop", "orders", params(&[("id", "A1")]));
    let found = text_of(host.run(&mut engine, step));
    assert_eq!(json(found.as_bytes()), json(br#"{"id":"A1","amount":9}"#));

    let step = engine.update("shop", "orders", br#"{"id":"A2"}"#.to_vec(), params(&[("id", "A1")]));
    assert!(matches!(host.run(&mut engine, step), Err(ConstDBError::InvalidArguments(_))));

    let step = engine.delete("shop", "orders", params(&[("id", "A1")]));
    assert_eq!(host.run(&mut engine, step), Ok(Outcome::Unit));

    let step = engine.query_by_key("shop", "orders", params(&[("id", "A1")]));
    assert_eq!(host.run(&mut engine, step), Err(ConstDBError::NotFound(Id::Data)));
}

#[test]
fn creating_a_database_twice_fails() {
    let mut host = Host::default();
    let mut engine = host.start();
    let step = engine.create_db("shop");
    assert!(host.run(&mut engine, step).is_ok());
    let step = engine.create_db("shop");
    assert_eq!(
        host.run(&mut engine, step),
        Err(ConstDBError::AlreadyExists(Id::Database("shop".to_string())))
    );
}

#[test]
fn creating_the_system_database_fails() {
    let mut host = Host::default();
    let mut engine = host.start();
    let step = engine.create_db("system");
    assert_eq!(
        host.run(&mut engine, step),
        Err(ConstDBError::AlreadyExists(Id::Database("system".to_string())))
    );
}

#[test]
fn a_database_name_with_a_separator_is_refused() {
    let mut host = Host::default();
    let mut engine = host.start();
    let step = engine.create_db("a.b");
    assert!(matches!(host.run(&mut engine, step), Err(ConstDBError::InvalidArguments(_))));
    assert!(!engine.db_exists("a.b"));
}

#[test]
fn creating_a_table_in_a_missing_database_fails() {
    let mut host = Host::default();
    let mut engine = host.start();
    let step = engine.create_table("nowhere", &orders());
    assert_eq!(
        host.run(&mut engine, step),
        Err(ConstDBError::NotFound(Id::Database("nowhere".to_string())))
    );
}

#[test]
fn creating_a_table_twice_fails() {
    let mut host = Host::default();
    let mut engine = shop(&mut host);
    let step = engine.create_table("shop", &orders());
    assert_eq!(
        host.run(&mut engine, step),
        Err(ConstDBError::AlreadyExists(Id::table("shop", "orders")))
    );
}

#[test]
fn a_keyspace_without_catalog_entry_is_not_created_again() {
    let mut host = Host::default();
    let mut engine = shop(&mut host);
    let key = b"tshop.orders".to_vec();
    host.disk.get_mut("/data/system").unwrap().get_mut("default").unwrap().remove(&key);
    let step = engine.create_table("shop", &orders());
    assert_eq!(
        host.run(&mut engine, step),
        Err(ConstDBError::AlreadyExists(Id::table("shop", "orders")))
    );
}

#[test]
fn the_catalog_holds_the_two_key_families() {
    let mut host = Host::default();
    shop(&mut host);
    let catalog = &host.disk["/data/system"]["default"];
    let keys: Vec<Vec<u8>> = catalog.keys().cloned().collect();
    assert_eq!(keys, vec![b"dshop".to_vec(), b"tshop.orders".to_vec()]);
    assert!(host.disk["/data/shop"].contains_key("orders"));
}

#[test]
fn a_new_database_has_no_store_until_its_first_table() {
    let mut host = Host::default();
    let mut engine = host.start();
    let step = engine.create_db("shop");
    assert!(host.run(&mut engine, step).is_ok());
    assert!(!host.disk.contains_key("/data/shop"));
    let step = engine.create_table("shop", &orders());
    assert_eq!(host.run(&mut engine, step), Ok(Outcome::Unit));
    assert!(host.disk.contains_key("/data/shop"));
}

#[test]
fn restart_rediscovers_databases_and_tables() {
    let mut host = Host::default();
    let mut engine = shop(&mut host);
    let step = engine.create_db("data");
    assert!(host.run(&mut engine, step).is_ok());
    let step = engine.insert("shop", "orders", br#"{"id":"A1"}"#.to_vec());
    assert_eq!(host.run(&mut engine, step), Ok(Outcome::Unit));

    let mut engine = host.start();
    assert!(engine.db_exists("shop"));
    assert!(engine.db_exists("data"));
    assert!(engine.db_exists("system"));
    let step = engine.get_table("shop", "orders");
    assert_eq!(host.run(&mut engine, step), Ok(Outcome::Table(orders())));
    let step = engine.query_by_key("shop", "orders", params(&[("id", "A1")]));
    assert_eq!(text_of(host.run(&mut engine, step)), r#"{"id":"A1"}"#);
}

#[test]
fn dropping_a_database_forgets_it_and_erases_its_store() {
    let mut host = Host::default();
    let mut engine = shop(&mut host);
    let step = engine.drop_db("shop");
    assert_eq!(host.run(&mut engine, step), Ok(Outcome::Unit));
    assert!(!engine.db_exists("shop"));
    assert!(!host.disk.contains_key("/data/shop"));
    assert!(host.disk["/data/system"]["default"].contains_key(&b"dshop".to_vec()));
}

#[test]
fn dropping_a_missing_database_fails() {
    let mut host = Host::default();
    let mut engine = host.start();
    let step = engine.drop_db("shop");
    assert_eq!(
        host.run(&mut engine, step),
        Err(ConstDBError::NotFound(Id::Database("shop".to_string())))
    );
}

#[test]
fn table_exists_reads_the_catalog() {
    let mut host = Host::default();
    let mut engine = shop(&mut host);
    let step = engine.table_exists("shop", "orders");
    assert_eq!(host.run(&mut engine, step), Ok(Outcome::Flag(true)));
    let step = engine.table_exists("shop", "carts");
    assert_eq!(host.run(&mut engine, step), Ok(Outcome::Flag(false)));
}

#[test]
fn get_table_of_a_missing_table_fails() {
    let mut host = Host::default();
    let mut engine = shop(&mut host);
    let step = engine.get_table("shop", "carts");
    assert_eq!(host.run(&mut engine, step), Err(ConstDBError::NotFound(Id::table("shop", "carts"))));
    let step = engine.get_table("nowhere", "carts");
    assert_eq!(
        host.run(&mut engine, step),
        Err(ConstDBError::NotFound(Id::Database("nowhere".to_string())))
    );
}

#[test]
fn list_table_lists_the_tables_of_one_database() {
    let mut host = Host::default();
    let mut engine = shop(&mut host);
    let carts = TableSettings::new("carts", vec![Field::new("owner", DataType::String)]);
    let step = engine.create_table("shop", &carts);
    assert_eq!(host.run(&mut engine, step), Ok(Outcome::Unit));
    let step = engine.create_db("shop2");
    assert!(host.run(&mut engine, step).is_ok());
    let other = TableSettings::new("bills", vec![Field::new("no", DataType::Int64)]);
    let step = engine.create_table("shop2", &other);
    assert_eq!(host.run(&mut engine, step), Ok(Outcome::Unit));

    let step = engine.list_table("shop");
    assert_eq!(host.run(&mut engine, step), Ok(Outcome::Tables(vec![carts, orders()])));
    let step = engine.list_table("shop2");
    assert_eq!(host.run(&mut engine, step), Ok(Outcome::Tables(vec![other])));
    let step = engine.list_table("nowhere");
    assert_eq!(
        host.run(&mut engine, step),
        Err(ConstDBError::NotFound(Id::Database("nowhere".to_string())))
    );
}

#[test]
fn list_table_stops_at_a_corrupt_entry() {
    let mut host = Host::default();
    let mut engine = shop(&mut host);
    host.disk
        .get_mut("/data/system")
        .unwrap()
        .get_mut("default")
        .unwrap()
        .insert(b"tshop.broken".to_vec(), vec![1, 2, 3]);
    let step = engine.list_table("shop");
    assert!(matches!(host.run(&mut engine, step), Err(ConstDBError::InvalidStates(_))));
}

#[test]
fn deleting_a_table_removes_keyspace_and_entry() {
    let mut host = Host::default();
    let mut engine = shop(&mut host);
    let step = engine.delete_table("shop", "orders");
    assert_eq!(host.run(&mut engine, step), Ok(Outcome::Unit));
    assert!(!host.disk["/data/shop"].contains_key("orders"));
    assert!(!host.disk["/data/system"]["default"].contains_key(&b"tshop.orders".to_vec()));
    let step = engine.delete_table("shop", "orders");
    assert_eq!(
        host.run(&mut engine, step),
        Err(ConstDBError::NotFound(Id::table("shop", "orders")))
    );
    let step = engine.delete_table("nowhere", "orders");
    assert_eq!(
        host.run(&mut engine, step),
        Err(ConstDBError::NotFound(Id::Database("nowhere".to_string())))
    );
}

#[test]
fn insert_without_the_key_field_fails() {
    let mut host = Host::default();
    let mut engine = shop(&mut host);
    let step = engine.insert("shop", "orders", br#"{"amount":5}"#.to_vec());
    assert!(matches!(host.run(&mut engine, step), Err(ConstDBError::InvalidArguments(_))));
    let step = engine.insert("shop", "orders", br#"[1,2]"#.to_vec());
    assert!(matches!(host.run(&mut engine, step), Err(ConstDBError::InvalidArguments(_))));
    let step = engine.insert("shop", "orders", br#"{"id":"#.to_vec());
    assert!(matches!(host.run(&mut engine, step), Err(ConstDBError::InvalidStates(_))));
}

#[test]
fn insert_into_a_missing_table_or_database_fails() {
    let mut host = Host::default();
    let mut engine = shop(&mut host);
    let step = engine.insert("shop", "carts", br#"{"id":"A1"}"#.to_vec());
    assert_eq!(host.run(&mut engine, step), Err(ConstDBError::NotFound(Id::table("shop", "carts"))));
    let step = engine.insert("nowhere", "orders", br#"{"id":"A1"}"#.to_vec());
    assert_eq!(
        host.run(&mut engine, step),
        Err(ConstDBError::NotFound(Id::Database("nowhere".to_string())))
    );
}

#[test]
fn insert_overwrites_silently() {
    let mut host = Host::default();
    let mut engine = shop(&mut host);
    let step = engine.insert("shop", "orders", br#"{"id":"A1","n":1}"#.to_vec());
    assert_eq!(host.run(&mut engine, step), Ok(Outcome::Unit));
    let step = engine.insert("shop", "orders", br#"{"id":"A1","n":2}"#.to_vec());
    assert_eq!(host.run(&mut engine, step), Ok(Outcome::Unit));
    let step = engine.query_by_key("shop", "orders", params(&[("id", "A1")]));
    assert_eq!(text_of(host.run(&mut engine, step)), r#"{"id":"A1","n":2}"#);
    assert_eq!(host.disk["/data/shop"]["orders"].len(), 1);
    assert!(host.disk["/data/shop"]["orders"].contains_key(&b"A1\0".to_vec()));
}

#[test]
fn update_of_a_missing_record_fails() {
    let mut host = Host::default();
    let mut engine = shop(&mut host);
    let step = engine.update("shop", "orders", br#"{"n":1}"#.to_vec(), params(&[("id", "A1")]));
    assert_eq!(host.run(&mut engine, step), Err(ConstDBError::NotFound(Id::Data)));
}

#[test]
fn update_and_delete_need_a_complete_key() {
    let mut host = Host::default();
    let mut engine = shop(&mut host);
    let step = engine.insert("shop", "orders", br#"{"id":"A1"}"#.to_vec());
    assert_eq!(host.run(&mut engine, step), Ok(Outcome::Unit));
    let step = engine.update("shop", "orders", br#"{"n":1}"#.to_vec(), params(&[]));
    assert!(matches!(host.run(&mut engine, step), Err(ConstDBError::InvalidArguments(_))));
    let step = engine.delete("shop", "orders", params(&[("other", "A1")]));
    assert!(matches!(host.run(&mut engine, step), Err(ConstDBError::InvalidArguments(_))));
    assert_eq!(host.disk["/data/shop"]["orders"].len(), 1);
}

#[test]
fn delete_of_a_missing_record_fails() {
    let mut host = Host::default();
    let mut engine = shop(&mut host);
    let step = engine.delete("shop", "orders", params(&[("id", "A1")]));
    assert_eq!(host.run(&mut engine, step), Err(ConstDBError::NotFound(Id::Data)));
}

fn events() -> TableSettings {
    TableSettings::new(
        "events",
        vec![Field::new("day", DataType::String), Field::new("no", DataType::Int32)],
    )
}

#[test]
fn a_prefix_is_scanned_in_key_order() {
    let mut host = Host::default();
    let mut engine = shop(&mut host);
    let step = engine.create_table("shop", &events());
    assert_eq!(host.run(&mut engine, step), Ok(Outcome::Unit));
    for record in [
        r#"{"day":"mon","no":2}"#,
        r#"{"day":"tue","no":1}"#,
        r#"{"day":"mon","no":1}"#,
        r#"{"day":"mo","no":7}"#,
        r#"{"day":"mon2","no":1}"#,
    ] {
        let step = engine.insert("shop", "events", record.as_bytes().to_vec());
        assert_eq!(host.run(&mut engine, step), Ok(Outcome::Unit));
    }
    let step = engine.query_by_key("shop", "events", params(&[("day", "mon")]));
    assert_eq!(
        text_of(host.run(&mut engine, step)),
        r#"[{"day":"mon","no":1},{"day":"mon","no":2}]"#
    );
    let step = engine.query_by_key("shop", "events", params(&[("day", "wed")]));
    assert_eq!(text_of(host.run(&mut engine, step)), "[]");
    let step = engine.query_by_key("shop", "events", params(&[("no", "1")]));
    let all = json(text_of(host.run(&mut engine, step)).as_bytes());
    assert_eq!(all.as_array().unwrap().len(), 5);
    let step = engine.query_by_key("shop", "events", params(&[("day", "mon"), ("no", "2")]));
    assert_eq!(text_of(host.run(&mut engine, step)), r#"{"day":"mon","no":2}"#);
}

#[test]
fn a_prefix_scan_is_bounded_above() {
    let mut host = Host::default();
    let mut engine = shop(&mut host);
    let step = engine.create_table("shop", &events());
    assert_eq!(host.run(&mut engine, step), Ok(Outcome::Unit));
    host.log.clear();
    let step = engine.query_by_key("shop", "events", params(&[("day", "mon")]));
    assert_eq!(text_of(host.run(&mut engine, step)), "[]");
    assert_eq!(
        host.log.last().unwrap(),
        &Request::Scan {
            db: "shop".to_string(),
            table: Some("events".to_string()),
            from: b"mon\0".to_vec(),
            until: Some(b"mon\x01".to_vec()),
        }
    );
}

#[test]
fn a_float_key_is_read_by_the_host() {
    let mut host = Host::default();
    let mut engine = shop(&mut host);
    let prices = TableSettings::new("prices", vec![Field::new("price", DataType::Float32)]);
    let step = engine.create_table("shop", &prices);
    assert_eq!(host.run(&mut engine, step), Ok(Outcome::Unit));
    let step = engine.insert("shop", "prices", br#"{"price":1.5}"#.to_vec());
    assert_eq!(host.run(&mut engine, step), Ok(Outcome::Unit));
    let mut key = 1.5f32.to_be_bytes().to_vec();
    key.push(0);
    assert!(host.disk["/data/shop"]["prices"].contains_key(&key));
    let step = engine.query_by_key("shop", "prices", params(&[("price", "1.5")]));
    assert_eq!(text_of(host.run(&mut engine, step)), r#"{"price":1.5}"#);
    let step = engine.query_by_key("shop", "prices", params(&[("price", "cheap")]));
    assert!(matches!(host.run(&mut engine, step), Err(ConstDBError::InvalidArguments(_))));
    let step = engine.insert("shop", "prices", br#"{"price":1e300}"#.to_vec());
    assert!(matches!(host.run(&mut engine, step), Err(ConstDBError::InvalidArguments(_))));
}

#[test]
fn a_failed_or_foreign_reply_ends_the_operation() {
    let mut host = Host::default();
    let mut engine = shop(&mut host);
    let step = engine.get_table("shop", "orders");
    let pending = match step {
        Step::Ask(_, pending) => pending,
        other => panic!("unexpected step: {:?}", other),
    };
    let step = engine.resume(pending.clone(), Reply::Failed("disk".to_string()));
    assert!(matches!(step, Step::Done(Err(ConstDBError::InvalidStates(_)))));
    let step = engine.resume(pending, Reply::Done);
    assert!(matches!(step, Step::Done(Err(ConstDBError::InvalidStates(_)))));
}

#[test]
fn a_database_whose_creation_was_not_recorded_is_not_rediscovered() {
    let mut host = Host::default();
    let mut engine = host.start();
    let step = engine.create_db("shop");
    let (request, pending) = match step {
        Step::Ask(request, pending) => (request, pending),
        other => panic!("unexpected step: {:?}", other),
    };
    let reply = host.perform(request);
    let step = engine.resume(pending, reply);
    assert!(matches!(step, Step::Ask(Request::Put { .. }, _)));
    assert!(engine.db_exists("shop"));
    let engine = host.start();
    assert!(!engine.db_exists("shop"));
}

#[test]
fn creating_a_registered_database_fails_whatever_its_name() {
    let mut host = Host::default();
    host.start();
    host.disk
        .get_mut("/data/system")
        .unwrap()
        .get_mut("default")
        .unwrap()
        .insert(b"da.b".to_vec(), vec![0, 0, 0, 3, b'a', b'.', b'b']);
    let mut engine = host.start();
    assert!(engine.db_exists("a.b"));
    let step = engine.create_db("a.b");
    assert_eq!(
        host.run(&mut engine, step),
        Err(ConstDBError::AlreadyExists(Id::Database("a.b".to_string())))
    );
    assert_eq!(engine.list_db().unwrap().len(), 2);
    assert_eq!(host.disk["/data/system"]["default"].len(), 1);
}

#[test]
fn startup_fails_on_a_corrupt_database_entry() {
    let mut host = Host::default();
    let mut engine = shop(&mut host);
    let step = engine.create_db("zoo");
    assert!(host.run(&mut engine, step).is_ok());
    host.disk
        .get_mut("/data/system")
        .unwrap()
        .get_mut("default")
        .unwrap()
        .insert(b"dt\xff".to_vec(), vec![]);
    host.open.clear();
    let (mut engine, first) = Engine::new(Settings { root: "/data".to_string() });
    let result = host.run(&mut engine, first);
    assert!(matches!(result, Err(ConstDBError::InvalidStates(_))), "{:?}", result);
    assert!(!engine.db_exists("zoo"));
}

#[test]
fn an_updated_record_is_json_text() {
    let mut host = Host::default();
    let mut engine = shop(&mut host);
    let step = engine.insert("shop", "orders", r#"{"id":"é","n":1}"#.as_bytes().to_vec());
    assert_eq!(host.run(&mut engine, step), Ok(Outcome::Unit));
    let patch = r#"{"n":"ü"}"#.as_bytes().to_vec();
    let step = engine.update("shop", "orders", patch, params(&[("id", "é")]));
    assert_eq!(host.run(&mut engine, step), Ok(Outcome::Unit));
    let stored = host.disk["/data/shop"]["orders"]["é\0".as_bytes()].clone();
    assert_eq!(String::from_utf8(stored).unwrap(), r#"{"id":"é","n":"ü"}"#);
    let step = engine.query_by_key("shop", "orders", params(&[("id", "é")]));
    assert_eq!(text_of(host.run(&mut engine, step)), r#"{"id":"é","n":"ü"}"#);
}
