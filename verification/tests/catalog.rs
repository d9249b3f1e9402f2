use constdb::db::DBInstance;
use constdb::errors::ConstDBError;
use constdb::ids::Id;
use constdb::model::DBSettings;
use constdb::model::DataType;
use constdb::model::Field;
use constdb::model::TableSettings;
use constdb::protocol::Request;
use constdb::system_db::is_valid_database_name;
use constdb::system_db::SystemKeys;

#[test]
fn keys_are_a_tag_and_names() {
    assert_eq!(SystemKeys::table_meta_key("shop", "orders").as_key(), "tshop.orders");
    assert_eq!(SystemKeys::table_meta_prefix("shop").as_key(), "tshop.");
    assert_eq!(SystemKeys::db_meta_key("shop").as_key(), "dshop");
    assert_eq!(SystemKeys::DBMetaPrefix.as_key(), "d");
}

#[test]
fn key_bytes_are_the_bytes_of_the_key_text() {
    for key in [
        SystemKeys::table_meta_key("shop", "orders"),
        SystemKeys::table_meta_key("büro", "a.b"),
        SystemKeys::table_meta_prefix("shop"),
        SystemKeys::db_meta_key("désert"),
        SystemKeys::db_meta_key(""),
        SystemKeys::DBMetaPrefix,
    ] {
        assert_eq!(key.as_bytes(), key.as_key().into_bytes());
    }
}

#[test]
fn a_database_key_is_read_back() {
    for name in ["shop", "data", "d", "", "tables", "désert", "a.b"] {
        let key = SystemKeys::db_meta_key(name).as_bytes();
        assert_eq!(SystemKeys::parse_db_meta_key(&key), Ok(name.to_string()));
    }
}

#[test]
fn a_table_key_is_read_back() {
    for (db, table) in [("shop", "orders"), ("test", "t"), ("shop", "a.b"), ("shop", ""), ("", "x")] {
        let key = SystemKeys::table_meta_key(db, table).as_bytes();
        assert_eq!(
            SystemKeys::parse_table_meta_key(&key),
            Ok((db.to_string(), table.to_string()))
        );
    }
}

#[test]
fn foreign_keys_are_refused() {
    for key in [&b""[..], b"tshop.orders", b"xshop", b"Dshop", b"d\xff", b"d\xc3"] {
        assert!(
            matches!(SystemKeys::parse_db_meta_key(key), Err(ConstDBError::InvalidStates(_))),
            "{:?}",
            key
        );
    }
    for key in [&b""[..], b"dshop", b"tshop", b"t", b"t\xff.a", b"ta.\xff", b"shop.orders"] {
        assert!(
            matches!(SystemKeys::parse_table_meta_key(key), Err(ConstDBError::InvalidStates(_))),
            "{:?}",
            key
        );
    }
}

#[test]
fn database_names_hold_no_separator() {
    assert!(is_valid_database_name("shop"));
    assert!(is_valid_database_name("data"));
    assert!(is_valid_database_name(""));
    assert!(is_valid_database_name("désert"));
    assert!(!is_valid_database_name("a.b"));
    assert!(!is_valid_database_name("."));
    assert!(!is_valid_database_name("shop."));
}

fn events() -> TableSettings {
    TableSettings::new(
        "events",
        vec![
            Field::new("day", DataType::String),
            Field::new("no", DataType::Int32),
            Field::new("ok", DataType::Boolean),
            Field::new("at", DataType::DateTime),
            Field::new("n", DataType::Int64),
            Field::new("x", DataType::Float32),
            Field::new("y", DataType::Float64),
            Field::new("u", DataType::Unknown),
        ],
    )
}

#[test]
fn a_stored_table_is_read_back() {
    for table in [events(), TableSettings::new("", vec![]), TableSettings::new("é", vec![Field::new("", DataType::String)])] {
        let bytes = table.write_to_bytes().unwrap();
        assert_eq!(TableSettings::parse_from_bytes(&bytes), Ok(table));
    }
}

#[test]
fn a_table_is_stored_with_lengths_and_type_bytes() {
    let table = TableSettings::new("ab", vec![Field::new("id", DataType::Int64)]);
    assert_eq!(
        table.write_to_bytes().unwrap(),
        vec![0, 0, 0, 2, b'a', b'b', 0, 0, 0, 1, 0, 0, 0, 2, b'i', b'd', 5]
    );
}

#[test]
fn a_stored_database_is_read_back() {
    let db = DBSettings::new("shop");
    let bytes = db.write_to_bytes().unwrap();
    assert_eq!(bytes, vec![0, 0, 0, 4, b's', b'h', b'o', b'p']);
    assert_eq!(DBSettings::parse_from_bytes(&bytes), Ok(db));
}

#[test]
fn malformed_records_are_refused() {
    let good = events().write_to_bytes().unwrap();
    let mut long = good.clone();
    long.push(0);
    let mut bad_type = TableSettings::new("t", vec![Field::new("a", DataType::String)])
        .write_to_bytes()
        .unwrap();
    *bad_type.last_mut().unwrap() = 8;
    let cases: Vec<Vec<u8>> = vec![
        vec![],
        vec![0, 0, 0],
        vec![0, 0, 0, 2, b'a'],
        vec![0, 0, 0, 1, 0xff, 0, 0, 0, 0],
        vec![0, 0, 0, 1, b'a'],
        vec![0, 0, 0, 1, b'a', 0, 0, 0, 1],
        good[..good.len() - 1].to_vec(),
        long,
        bad_type,
    ];
    for bytes in cases {
        assert!(
            matches!(TableSettings::parse_from_bytes(&bytes), Err(ConstDBError::InvalidStates(_))),
            "{:?}",
            bytes
        );
    }
    for bytes in [vec![], vec![0, 0, 0, 1], vec![0, 0, 0, 1, b'a', b'b'], vec![0, 0, 0, 1, 0x80]] {
        assert!(
            matches!(DBSettings::parse_from_bytes(&bytes), Err(ConstDBError::InvalidStates(_))),
            "{:?}",
            bytes
        );
    }
}

#[test]
fn identifiers_are_shown_by_kind() {
    assert_eq!(Id::Database("shop".to_string()).to_string(), "database[shop]");
    assert_eq!(Id::table("shop", "orders").to_string(), "table[shop.orders]");
    assert_eq!(Id::Data.to_string(), "data");
    assert_eq!(Id::database("shop"), Id::Database("shop".to_string()));
    assert_eq!(
        Id::table("shop", "orders"),
        Id::Table { db: "shop".to_string(), name: "orders".to_string() }
    );
}

#[test]
fn errors_are_shown_and_mapped_to_status_codes() {
    let exists = ConstDBError::AlreadyExists(Id::Database("shop".to_string()));
    assert_eq!(exists.to_string(), "database[shop] already exists!");
    assert_eq!(exists.http_status_code(), 400);
    let missing = ConstDBError::NotFound(Id::Data);
    assert_eq!(missing.to_string(), "data not found!");
    assert_eq!(missing.http_status_code(), 404);
    let state = ConstDBError::InvalidStates("broken".to_string());
    assert_eq!(state.to_string(), "broken");
    assert_eq!(state.http_status_code(), 500);
    let argument = ConstDBError::InvalidArguments("bad".to_string());
    assert_eq!(argument.to_string(), "bad");
    assert_eq!(argument.http_status_code(), 400);
    assert_eq!(
        ConstDBError::invalid_state("a: ", "b"),
        ConstDBError::InvalidStates("a: b".to_string())
    );
    assert_eq!(
        ConstDBError::invalid_argument("a: ", "b"),
        ConstDBError::InvalidArguments("a: b".to_string())
    );
}

#[test]
fn a_new_instance_is_not_open() {
    let instance = DBInstance::new("shop", "/data/shop");
    assert_eq!(instance.name(), "shop");
    assert_eq!(instance.root(), "/data/shop");
    assert!(!instance.is_open());
    assert!(matches!(instance.rocks_db(), Err(ConstDBError::InvalidStates(_))));
    assert!(matches!(instance.rocks_db_for_table("orders"), Err(ConstDBError::InvalidStates(_))));
    assert!(matches!(instance.create_table("orders"), Err(ConstDBError::InvalidStates(_))));
    assert_eq!(instance.delete_table("orders"), Err(ConstDBError::NotFound(Id::table("shop", "orders"))));
}

#[test]
fn an_instance_asks_for_its_store() {
    let instance = DBInstance::new("shop", "/data/shop");
    assert_eq!(
        instance.open_rocks_db(),
        Request::OpenStore { db: "shop".to_string(), path: "/data/shop".to_string(), create: true }
    );
    assert_eq!(
        instance.try_open_rocks_db(),
        Request::OpenStore { db: "shop".to_string(), path: "/data/shop".to_string(), create: false }
    );
}

#[test]
fn an_open_instance_tracks_its_keyspaces() {
    let mut instance = DBInstance::new("shop", "/data/shop");
    instance.opened(vec!["default".to_string(), "orders".to_string(), "orders".to_string()]);
    assert!(instance.is_open());
    assert_eq!(instance.rocks_db().unwrap(), &vec!["default".to_string(), "orders".to_string()]);
    assert_eq!(instance.rocks_db_for_table("orders"), Ok("orders"));
    assert!(matches!(instance.rocks_db_for_table("carts"), Err(ConstDBError::InvalidStates(_))));
    assert_eq!(
        instance.create_table("orders"),
        Err(ConstDBError::AlreadyExists(Id::table("shop", "orders")))
    );
    assert_eq!(
        instance.create_table("carts"),
        Ok(Request::CreateKeyspace { db: "shop".to_string(), table: "carts".to_string() })
    );
    assert!(matches!(instance.rocks_db_for_table("carts"), Err(ConstDBError::InvalidStates(_))));
    instance.table_created("carts");
    assert_eq!(instance.rocks_db_for_table("carts"), Ok("carts"));
    assert_eq!(
        instance.delete_table("carts"),
        Ok(Request::DropKeyspace { db: "shop".to_string(), table: "carts".to_string() })
    );
    instance.table_deleted("carts");
    assert_eq!(instance.delete_table("carts"), Err(ConstDBError::NotFound(Id::table("shop", "carts"))));
    assert_eq!(instance.rocks_db().unwrap().len(), 2);
}
