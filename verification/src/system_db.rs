//! The keys of the catalog.

use vstd::prelude::*;
use vstd::slice::*;
use vstd::string::*;
use vstd::utf8::*;
use crate::errors::ConstDBError;
use crate::errors::ErrorView;
use crate::range::has_prefix;
use crate::text::string_from_utf8;

verus! {

/// The byte `d`, which begins every database entry of the catalog.
pub const DATABASE_TAG: u8 = 0x64;

/// The byte `t`, which begins every table entry of the catalog.
pub const TABLE_TAG: u8 = 0x74;

/// The byte `.`, which ends the database name inside a table entry.
pub const SEPARATOR: u8 = 0x2e;

/// A key, or the common beginning of a family of keys, in the catalog.
#[derive(Debug, Clone, PartialEq, Eq)]
pub enum SystemKeys {
    TableMetaKey { db: String, table: String },
    TableMetaPrefix { db: String },
    DBMetaKey { db: String },
    DBMetaPrefix,
}

/// The mathematical value of a [`SystemKeys`].
pub enum SystemKeyView {
    TableMetaKey { db: Seq<char>, table: Seq<char> },
    TableMetaPrefix { db: Seq<char> },
    DBMetaKey { db: Seq<char> },
    DBMetaPrefix,
}

impl SystemKeyView {
    /// The text of the key: a tag, then the names it is made of.
    pub open spec fn text(self) -> Seq<char> {
        match self {
            SystemKeyView::TableMetaKey { db, table } => seq!['t'] + db + seq!['.'] + table,
            SystemKeyView::TableMetaPrefix { db } => seq!['t'] + db + seq!['.'],
            SystemKeyView::DBMetaKey { db } => seq!['d'] + db,
            SystemKeyView::DBMetaPrefix => seq!['d'],
        }
    }

    /// The bytes of the key as the store holds them.
    pub open spec fn bytes(self) -> Seq<u8> {
        match self {
            SystemKeyView::TableMetaKey { db, table } => seq![TABLE_TAG] + encode_utf8(db)
                + seq![SEPARATOR] + encode_utf8(table),
            SystemKeyView::TableMetaPrefix { db } => seq![TABLE_TAG] + encode_utf8(db)
                + seq![SEPARATOR],
            SystemKeyView::DBMetaKey { db } => seq![DATABASE_TAG] + encode_utf8(db),
            SystemKeyView::DBMetaPrefix => seq![DATABASE_TAG],
        }
    }
}

impl View for SystemKeys {
    type V = SystemKeyView;

    open spec fn view(&self) -> SystemKeyView {
        match self {
            SystemKeys::TableMetaKey { db, table } => SystemKeyView::TableMetaKey {
                db: db@,
                table: table@,
            },
            SystemKeys::TableMetaPrefix { db } => SystemKeyView::TableMetaPrefix { db: db@ },
            SystemKeys::DBMetaKey { db } => SystemKeyView::DBMetaKey { db: db@ },
            SystemKeys::DBMetaPrefix => SystemKeyView::DBMetaPrefix,
        }
    }
}

/// The position of the first separator at or after `from`, or the length of
/// `bytes` if there is none.
pub open spec fn first_separator(bytes: Seq<u8>, from: int) -> int
    decreases bytes.len() - from,
{
    if from < 0 || from >= bytes.len() || bytes[from] == SEPARATOR {
        from
    } else {
        first_separator(bytes, from + 1)
    }
}

/// The database name that the bytes of a database entry hold: the tag is
/// taken off once, and what follows must be UTF-8.
pub open spec fn spec_parse_db_meta_key(bytes: Seq<u8>) -> Option<Seq<char>> {
    let name = bytes.subrange(1, bytes.len() as int);
    if bytes.len() >= 1 && bytes[0] == DATABASE_TAG && valid_utf8(name) {
        Some(decode_utf8(name))
    } else {
        None
    }
}

/// The database and table names that the bytes of a table entry hold: the
/// tag is taken off once, the database name ends at the first separator, and
/// both names must be UTF-8.
pub open spec fn spec_parse_table_meta_key(bytes: Seq<u8>) -> Option<(Seq<char>, Seq<char>)> {
    let dot = first_separator(bytes, 1);
    let db = bytes.subrange(1, dot);
    let table = bytes.subrange(dot + 1, bytes.len() as int);
    if bytes.len() >= 1 && bytes[0] == TABLE_TAG && dot < bytes.len() && valid_utf8(db)
        && valid_utf8(table) {
        Some((decode_utf8(db), decode_utf8(table)))
    } else {
        None
    }
}

/// The error for bytes that are no key of the kind `what`.
fn invalid_key(what: &str) -> (error: ConstDBError)
    ensures
        error@ == ErrorView::InvalidStates("invalid "@ + what@),
{
    ConstDBError::invalid_state("invalid ", what)
}

impl SystemKeys {
    /// The key of the catalog entry of a table.
    pub fn table_meta_key(db: &str, table: &str) -> (key: SystemKeys)
        ensures
            key@ == (SystemKeyView::TableMetaKey { db: db@, table: table@ }),
    {
        SystemKeys::TableMetaKey { db: db.to_owned(), table: table.to_owned() }
    }

    /// The common beginning of the keys of the tables of a database.
    pub fn table_meta_prefix(db: &str) -> (key: SystemKeys)
        ensures
            key@ == (SystemKeyView::TableMetaPrefix { db: db@ }),
    {
        SystemKeys::TableMetaPrefix { db: db.to_owned() }
    }

    /// The key of the catalog entry of a database.
    pub fn db_meta_key(db: &str) -> (key: SystemKeys)
        ensures
            key@ == (SystemKeyView::DBMetaKey { db: db@ }),
    {
        SystemKeys::DBMetaKey { db: db.to_owned() }
    }

    /// The key as text.
    pub fn as_key(&self) -> (key: String)
        ensures
            key@ == self@.text(),
    {
        proof {
            reveal_strlit("t");
            reveal_strlit("d");
            reveal_strlit(".");
        }
        match self {
            SystemKeys::TableMetaKey { db, table } => {
                let mut key = String::from_str("t");
                key.append(db.as_str());
                key.append(".");
                key.append(table.as_str());
                assert("t"@ =~= seq!['t'] && "."@ =~= seq!['.']);
                key
            },
            SystemKeys::TableMetaPrefix { db } => {
                let mut key = String::from_str("t");
                key.append(db.as_str());
                key.append(".");
                assert("t"@ =~= seq!['t'] && "."@ =~= seq!['.']);
                key
            },
            SystemKeys::DBMetaKey { db } => {
                let mut key = String::from_str("d");
                key.append(db.as_str());
                assert("d"@ =~= seq!['d']);
                key
            },
            SystemKeys::DBMetaPrefix => {
                let key = String::from_str("d");
                assert("d"@ =~= seq!['d']);
                key
            },
        }
    }

    /// The key as the bytes that the store holds.
    pub fn as_bytes(&self) -> (key: Vec<u8>)
        ensures
            key@ == self@.bytes(),
    {
        let mut key: Vec<u8> = Vec::new();
        match self {
            SystemKeys::TableMetaKey { db, table } => {
                key.push(TABLE_TAG);
                let mut name = db.as_str().as_bytes_vec();
                key.append(&mut name);
                key.push(SEPARATOR);
                let mut name = table.as_str().as_bytes_vec();
                key.append(&mut name);
            },
            SystemKeys::TableMetaPrefix { db } => {
                key.push(TABLE_TAG);
                let mut name = db.as_str().as_bytes_vec();
                key.append(&mut name);
                key.push(SEPARATOR);
            },
            SystemKeys::DBMetaKey { db } => {
                key.push(DATABASE_TAG);
                let mut name = db.as_str().as_bytes_vec();
                key.append(&mut name);
            },
            SystemKeys::DBMetaPrefix => {
                key.push(DATABASE_TAG);
            },
        }
        assert(key@ =~= self@.bytes());
        key
    }

    /// Reads the database name out of the bytes of a database entry.
    ///
    /// Fails with `InvalidStates` where the bytes do not begin with the
    /// database tag or are not UTF-8.
    pub fn parse_db_meta_key(bytes: &[u8]) -> (name: Result<String, ConstDBError>)
        ensures
            match spec_parse_db_meta_key(bytes@) {
                Some(db) => name matches Ok(text) && text@ == db,
                None => name matches Err(e) && e@ is InvalidStates,
            },
    {
        if bytes.len() == 0 || bytes[0] != DATABASE_TAG {
            return Err(invalid_key("db meta key"));
        }
        let name = slice_to_vec(slice_subrange(bytes, 1, bytes.len()));
        match string_from_utf8(name) {
            Some(text) => Ok(text),
            None => Err(invalid_key("db meta key")),
        }
    }

    /// Reads the database and table names out of the bytes of a table entry.
    ///
    /// Fails with `InvalidStates` where the bytes do not begin with the table
    /// tag, hold no separator, or are not UTF-8.
    pub fn parse_table_meta_key(bytes: &[u8]) -> (names: Result<(String, String), ConstDBError>)
        ensures
            match spec_parse_table_meta_key(bytes@) {
                Some((db, table)) => names matches Ok(pair) && pair.0@ == db && pair.1@ == table,
                None => names matches Err(e) && e@ is InvalidStates,
            },
    {
        if bytes.len() == 0 || bytes[0] != TABLE_TAG {
            return Err(invalid_key("table meta key"));
        }
        let mut dot: usize = 1;
        while dot < bytes.len() && bytes[dot] != SEPARATOR
            invariant
                1 <= dot <= bytes.len(),
                first_separator(bytes@, 1) == first_separator(bytes@, dot as int),
            decreases bytes.len() - dot,
        {
            dot = dot + 1;
        }
        if dot >= bytes.len() {
            return Err(invalid_key("table meta key"));
        }
        let db = slice_to_vec(slice_subrange(bytes, 1, dot));
        let table = slice_to_vec(slice_subrange(bytes, dot + 1, bytes.len()));
        match string_from_utf8(db) {
            Some(db) => match string_from_utf8(table) {
                Some(table) => Ok((db, table)),
                None => Err(invalid_key("table meta key")),
            },
            None => Err(invalid_key("table meta key")),
        }
    }
}

/// Whether a database may have this name: its UTF-8 form holds no
/// separator byte, so that the entries of its tables can be told apart.
pub open spec fn valid_database_name(name: Seq<char>) -> bool {
    !encode_utf8(name).contains(SEPARATOR)
}

/// The UTF-8 form of a text is the UTF-8 forms of its parts, joined.
pub proof fn lemma_encode_concat(a: Seq<char>, b: Seq<char>)
    ensures
        encode_utf8(a + b) == encode_utf8(a) + encode_utf8(b),
    decreases a.len(),
{
    if a.len() == 0 {
        assert(a + b =~= b);
        assert(encode_utf8(a) + encode_utf8(b) =~= encode_utf8(b));
    } else {
        assert((a + b).drop_first() =~= a.drop_first() + b);
        lemma_encode_concat(a.drop_first(), b);
        assert(encode_utf8(a + b) =~= encode_utf8(a) + encode_utf8(b));
    }
}

/// The UTF-8 forms of the two tags and of the separator are the bytes that
/// the keys are made with.
pub proof fn lemma_encode_marks()
    ensures
        encode_utf8(seq!['d']) == seq![DATABASE_TAG],
        encode_utf8(seq!['t']) == seq![TABLE_TAG],
        encode_utf8(seq!['.']) == seq![SEPARATOR],
{
    assert(0x64u32 & 0x7f == 0x64u32) by (bit_vector);
    assert(0x74u32 & 0x7f == 0x74u32) by (bit_vector);
    assert(0x2eu32 & 0x7f == 0x2eu32) by (bit_vector);
    assert('d' as u32 == 0x64u32);
    assert('t' as u32 == 0x74u32);
    assert('.' as u32 == 0x2eu32);
    assert(seq!['d'].drop_first() =~= Seq::<char>::empty());
    assert(seq!['t'].drop_first() =~= Seq::<char>::empty());
    assert(seq!['.'].drop_first() =~= Seq::<char>::empty());
    reveal_with_fuel(encode_utf8, 2);
    assert(encode_utf8(seq!['d']) =~= seq![DATABASE_TAG]);
    assert(encode_utf8(seq!['t']) =~= seq![TABLE_TAG]);
    assert(encode_utf8(seq!['.']) =~= seq![SEPARATOR]);
}

/// The bytes of a key are the UTF-8 form of its text.
pub proof fn law_key_bytes_are_text(key: SystemKeyView)
    ensures
        encode_utf8(key.text()) == key.bytes(),
{
    lemma_encode_marks();
    match key {
        SystemKeyView::TableMetaKey { db, table } => {
            lemma_encode_concat(seq!['t'] + db + seq!['.'], table);
            lemma_encode_concat(seq!['t'] + db, seq!['.']);
            lemma_encode_concat(seq!['t'], db);
        },
        SystemKeyView::TableMetaPrefix { db } => {
            lemma_encode_concat(seq!['t'] + db, seq!['.']);
            lemma_encode_concat(seq!['t'], db);
        },
        SystemKeyView::DBMetaKey { db } => {
            lemma_encode_concat(seq!['d'], db);
        },
        SystemKeyView::DBMetaPrefix => {},
    }
}

/// The key of a database entry is read back as the name it was made of.
pub proof fn law_db_key_round_trip(db: Seq<char>)
    ensures
        spec_parse_db_meta_key((SystemKeyView::DBMetaKey { db }).bytes()) == Some(db),
{
    broadcast use encode_utf8_valid_utf8, encode_utf8_decode_utf8;

    let bytes = (SystemKeyView::DBMetaKey { db }).bytes();
    assert(bytes.subrange(1, bytes.len() as int) =~= encode_utf8(db));
}

/// Without a separator before its end, the first separator of a byte
/// string is where its middle part ends.
pub proof fn lemma_first_separator_at(bytes: Seq<u8>, from: int, at: int)
    requires
        0 <= from <= at < bytes.len(),
        forall|i: int| from <= i < at ==> bytes[i] != SEPARATOR,
        bytes[at] == SEPARATOR,
    ensures
        first_separator(bytes, from) == at,
    decreases at - from,
{
    if from < at {
        lemma_first_separator_at(bytes, from + 1, at);
    }
}

/// The key of a table entry is read back as the names it was made of, as
/// long as the name of the database is valid.
pub proof fn law_table_key_round_trip(db: Seq<char>, table: Seq<char>)
    requires
        valid_database_name(db),
    ensures
        spec_parse_table_meta_key((SystemKeyView::TableMetaKey { db, table }).bytes()) == Some(
            (db, table),
        ),
{
    broadcast use encode_utf8_valid_utf8, encode_utf8_decode_utf8;

    let bytes = (SystemKeyView::TableMetaKey { db, table }).bytes();
    let name = encode_utf8(db);
    let dot: int = name.len() as int + 1;
    assert forall|i: int| 1 <= i < dot implies bytes[i] != SEPARATOR by {
        assert(bytes[i] == name[i - 1]);
    }
    assert(bytes[dot] == SEPARATOR);
    lemma_first_separator_at(bytes, 1, dot);
    assert(bytes.subrange(1, dot) =~= name);
    assert(bytes.subrange(dot + 1, bytes.len() as int) =~= encode_utf8(table));
}

/// No bytes are the key of a database entry and of a table entry at once.
pub proof fn law_key_families_are_disjoint(bytes: Seq<u8>)
    ensures
        !(spec_parse_db_meta_key(bytes) is Some && spec_parse_table_meta_key(bytes) is Some),
{
}

/// The key of every table of a database begins with the table prefix of
/// the database.
pub proof fn law_table_key_has_its_prefix(db: Seq<char>, table: Seq<char>)
    ensures
        has_prefix(
            (SystemKeyView::TableMetaKey { db, table }).bytes(),
            (SystemKeyView::TableMetaPrefix { db }).bytes(),
        ),
{
    let key = (SystemKeyView::TableMetaKey { db, table }).bytes();
    let prefix = (SystemKeyView::TableMetaPrefix { db }).bytes();
    assert(key.subrange(0, prefix.len() as int) =~= prefix);
}

/// The table prefix of a database selects the tables of that database only,
/// as long as the names of the databases are valid.
pub proof fn law_table_prefix_selects_one_database(
    db: Seq<char>,
    other: Seq<char>,
    table: Seq<char>,
)
    requires
        valid_database_name(db),
        valid_database_name(other),
        has_prefix(
            (SystemKeyView::TableMetaKey { db: other, table }).bytes(),
            (SystemKeyView::TableMetaPrefix { db }).bytes(),
        ),
    ensures
        other == db,
{
    broadcast use encode_utf8_decode_utf8;

    let key = (SystemKeyView::TableMetaKey { db: other, table }).bytes();
    let prefix = (SystemKeyView::TableMetaPrefix { db }).bytes();
    let mine = encode_utf8(db);
    let theirs = encode_utf8(other);
    let head = key.subrange(0, prefix.len() as int);
    let my_len = mine.len() as int;
    let their_len = theirs.len() as int;
    assert forall|i: int| 0 <= i < prefix.len() implies key[i] == prefix[i] by {
        assert(head[i] == key[i]);
    }
    if theirs.len() < mine.len() {
        assert(key[1 + their_len] == SEPARATOR);
        assert(prefix[1 + their_len] == mine[their_len]);
        assert(false);
    }
    if theirs.len() > mine.len() {
        assert(prefix[1 + my_len] == SEPARATOR);
        assert(key[1 + my_len] == theirs[my_len]);
        assert(false);
    }
    assert forall|i: int| 0 <= i < mine.len() implies theirs[i] == mine[i] by {
        assert(key[1 + i] == theirs[i]);
        assert(prefix[1 + i] == mine[i]);
    }
    assert(theirs =~= mine);
    assert(decode_utf8(encode_utf8(other)) == other);
    assert(decode_utf8(encode_utf8(db)) == db);
}

/// The key of a database entry begins with the database prefix, and the key
/// of a table entry does not.
pub proof fn law_database_prefix_selects_databases(db: Seq<char>, table: Seq<char>)
    ensures
        has_prefix(
            (SystemKeyView::DBMetaKey { db }).bytes(),
            SystemKeyView::DBMetaPrefix.bytes(),
        ),
        !has_prefix(
            (SystemKeyView::TableMetaKey { db, table }).bytes(),
            SystemKeyView::DBMetaPrefix.bytes(),
        ),
{
    let key = (SystemKeyView::DBMetaKey { db }).bytes();
    let prefix = SystemKeyView::DBMetaPrefix.bytes();
    assert(key.subrange(0, 1) =~= prefix);
    let other = (SystemKeyView::TableMetaKey { db, table }).bytes();
    assert(other.subrange(0, 1)[0] == TABLE_TAG);
}

/// Bytes that are read as the key of a database entry are the key of that
/// database.
pub proof fn law_parsed_db_key_is_its_key(bytes: Seq<u8>)
    requires
        spec_parse_db_meta_key(bytes) is Some,
    ensures
        bytes == (SystemKeyView::DBMetaKey { db: spec_parse_db_meta_key(bytes)->0 }).bytes(),
{
    let name = bytes.subrange(1, bytes.len() as int);
    decode_utf8_encode_utf8(name);
    assert(bytes =~= seq![DATABASE_TAG] + name);
}

/// Bytes that are read as the key of a table entry are the key of that
/// table, and the name of its database is valid.
pub proof fn law_parsed_table_key_is_its_key(bytes: Seq<u8>)
    requires
        spec_parse_table_meta_key(bytes) is Some,
    ensures
        match spec_parse_table_meta_key(bytes) {
            Some((db, table)) => bytes == (SystemKeyView::TableMetaKey { db, table }).bytes()
                && valid_database_name(db),
            None => false,
        },
{
    let dot = first_separator(bytes, 1);
    let db = bytes.subrange(1, dot);
    let table = bytes.subrange(dot + 1, bytes.len() as int);
    lemma_first_separator_range(bytes, 1);
    decode_utf8_encode_utf8(db);
    decode_utf8_encode_utf8(table);
    assert(bytes =~= seq![TABLE_TAG] + db + seq![SEPARATOR] + table);
    assert forall|i: int| 0 <= i < db.len() implies db[i] != SEPARATOR by {
        assert(db[i] == bytes[1 + i]);
    }
}

/// The first separator at or after `from` lies within the bytes, and no
/// separator stands before it.
pub proof fn lemma_first_separator_range(bytes: Seq<u8>, from: int)
    requires
        0 <= from <= bytes.len(),
    ensures
        from <= first_separator(bytes, from) <= bytes.len(),
        forall|j: int| from <= j < first_separator(bytes, from) ==> bytes[j] != SEPARATOR,
        first_separator(bytes, from) < bytes.len() ==> bytes[first_separator(bytes, from)]
            == SEPARATOR,
    decreases bytes.len() - from,
{
    if from < bytes.len() && bytes[from] != SEPARATOR {
        lemma_first_separator_range(bytes, from + 1);
    }
}

/// Whether a database may have this name.
pub fn is_valid_database_name(name: &str) -> (valid: bool)
    ensures
        valid == valid_database_name(name@),
{
    let bytes = name.as_bytes();
    let mut i: usize = 0;
    while i < bytes.len()
        invariant
            i <= bytes.len(),
            bytes@ == encode_utf8(name@),
            forall|j: int| 0 <= j < i ==> bytes@[j] != SEPARATOR,
        decreases bytes.len() - i,
    {
        if bytes[i] == SEPARATOR {
            return false;
        }
        i = i + 1;
    }
    true
}

/// The UTF-8 form of a character holds the separator byte only where the
/// character is the separator.
pub proof fn lemma_separator_in_scalar(c: char)
    ensures
        encode_scalar(c as u32).contains(SEPARATOR) <==> c == '.',
{
    let scalar = c as u32;
    let bytes = encode_scalar(scalar);
    char_is_scalar(c);
    assert(scalar <= 0x7f ==> ((scalar & 0x7f) as u8 == 0x2e <==> scalar == 0x2e)) by (bit_vector);
    assert((0xC0u8 | ((scalar >> 6) & 0x1F) as u8) != 0x2e) by (bit_vector);
    assert((0xE0u8 | ((scalar >> 12) & 0x0F) as u8) != 0x2e) by (bit_vector);
    assert((0xF0u8 | ((scalar >> 18) & 0x7) as u8) != 0x2e) by (bit_vector);
    assert((0x80u8 | (scalar & 0x3F) as u8) != 0x2e) by (bit_vector);
    assert((0x80u8 | ((scalar >> 6) & 0x3F) as u8) != 0x2e) by (bit_vector);
    assert((0x80u8 | ((scalar >> 12) & 0x3F) as u8) != 0x2e) by (bit_vector);
    assert('.' as u32 == 0x2eu32);
    if c == '.' {
        assert(bytes[0] == SEPARATOR);
    }
    if bytes.contains(SEPARATOR) {
        let i = choose|i: int| 0 <= i < bytes.len() && bytes[i] == SEPARATOR;
        assert(scalar == 0x2e);
        char_u32_cast(c, 0x2eu32);
    }
}

/// A database name is valid exactly if it holds no separator character.
pub proof fn law_valid_names_hold_no_separator(name: Seq<char>)
    ensures
        valid_database_name(name) <==> !name.contains('.'),
    decreases name.len(),
{
    if name.len() == 0 {
        assert(encode_utf8(name) =~= Seq::<u8>::empty());
    } else {
        let first = encode_scalar(name[0] as u32);
        let rest = encode_utf8(name.drop_first());
        let bytes = encode_utf8(name);
        lemma_separator_in_scalar(name[0]);
        law_valid_names_hold_no_separator(name.drop_first());
        assert(bytes == first + rest);
        if bytes.contains(SEPARATOR) {
            let i = choose|i: int| 0 <= i < bytes.len() && bytes[i] == SEPARATOR;
            if i < first.len() {
                assert(first[i] == SEPARATOR);
                assert(name[0] == '.');
            } else {
                assert(rest[i - first.len()] == SEPARATOR);
                let j = choose|j: int|
                    0 <= j < name.drop_first().len() && name.drop_first()[j] == '.';
                assert(name[j + 1] == '.');
            }
        }
        if name.contains('.') {
            let j = choose|j: int| 0 <= j < name.len() && name[j] == '.';
            if j == 0 {
                let i = choose|i: int| 0 <= i < first.len() && first[i] == SEPARATOR;
                assert(bytes[i] == SEPARATOR);
            } else {
                assert(name.drop_first()[j - 1] == '.');
                let i = choose|i: int| 0 <= i < rest.len() && rest[i] == SEPARATOR;
                assert(bytes[first.len() + i] == SEPARATOR);
            }
        }
    }
}

} // verus!
