//! The layout of tables and databases as the catalog stores them.

use vstd::prelude::*;
use vstd::slice::*;
use vstd::string::*;
use vstd::utf8::*;
use crate::errors::ConstDBError;
use crate::errors::ErrorView;
use crate::model::DataType;
use crate::model::DBSettings;
use crate::model::Field;
use crate::model::fields_view;
use crate::model::FieldView;
use crate::model::TableSettings;
use crate::model::TableView;
use crate::numbers::be_bytes;
use crate::numbers::encode_u32;
use crate::numbers::lemma_be_bytes_len;
use crate::numbers::radix_power;
use crate::text::string_from_utf8;

verus! {

/// The byte that stands for a data type in a stored record.
pub open spec fn type_code(data_type: DataType) -> u8 {
    match data_type {
        DataType::Unknown => 0,
        DataType::String => 1,
        DataType::Boolean => 2,
        DataType::DateTime => 3,
        DataType::Int32 => 4,
        DataType::Int64 => 5,
        DataType::Float32 => 6,
        DataType::Float64 => 7,
    }
}

/// The data type that a byte stands for, if any.
pub open spec fn type_of_code(code: u8) -> Option<DataType> {
    if code == 0 {
        Some(DataType::Unknown)
    } else if code == 1 {
        Some(DataType::String)
    } else if code == 2 {
        Some(DataType::Boolean)
    } else if code == 3 {
        Some(DataType::DateTime)
    } else if code == 4 {
        Some(DataType::Int32)
    } else if code == 5 {
        Some(DataType::Int64)
    } else if code == 6 {
        Some(DataType::Float32)
    } else if code == 7 {
        Some(DataType::Float64)
    } else {
        None
    }
}

/// The number that big-endian bytes denote.
pub open spec fn be_value(bytes: Seq<u8>) -> nat
    decreases bytes.len(),
{
    if bytes.len() == 0 {
        0
    } else {
        be_value(bytes.drop_last()) * 256 + bytes.last() as nat
    }
}

/// A text as it is stored: the length of its UTF-8 form in four big-endian
/// bytes, then that form.
pub open spec fn spec_write_text(text: Seq<char>) -> Seq<u8> {
    be_bytes(encode_utf8(text).len(), 4) + encode_utf8(text)
}

/// A key field as it is stored: its name, then the byte of its type.
pub open spec fn spec_write_field(field: FieldView) -> Seq<u8> {
    spec_write_text(field.name) + seq![type_code(field.data_type)]
}

/// Key fields as they are stored, one after the other.
pub open spec fn spec_write_fields(fields: Seq<FieldView>) -> Seq<u8>
    decreases fields.len(),
{
    if fields.len() == 0 {
        Seq::empty()
    } else {
        spec_write_fields(fields.drop_last()) + spec_write_field(fields.last())
    }
}

/// A table as the catalog stores it: its name, the number of its key fields
/// in four big-endian bytes, then the key fields.
pub open spec fn spec_write_table(table: TableView) -> Seq<u8> {
    spec_write_text(table.name) + be_bytes(table.primary_keys.len(), 4) + spec_write_fields(
        table.primary_keys,
    )
}

/// Whether every length of the table fits the four bytes it is stored in.
pub open spec fn storable(table: TableView) -> bool {
    &&& encode_utf8(table.name).len() <= u32::MAX
    &&& table.primary_keys.len() <= u32::MAX
    &&& forall|i: int|
        0 <= i < table.primary_keys.len() ==> encode_utf8(
            (#[trigger] table.primary_keys[i]).name,
        ).len() <= u32::MAX
}

/// The text stored at position `at`, with the position behind it.
pub open spec fn spec_read_text(bytes: Seq<u8>, at: int) -> Option<(Seq<char>, int)> {
    if 0 <= at && at + 4 <= bytes.len() {
        let end = at + 4 + be_value(bytes.subrange(at, at + 4));
        if end <= bytes.len() && valid_utf8(bytes.subrange(at + 4, end)) {
            Some((decode_utf8(bytes.subrange(at + 4, end)), end))
        } else {
            None
        }
    } else {
        None
    }
}

/// The `count` key fields stored from position `at` on, with the position
/// behind them.
pub open spec fn spec_read_fields(bytes: Seq<u8>, at: int, count: nat) -> Option<
    (Seq<FieldView>, int),
>
    decreases count,
{
    if count == 0 {
        Some((Seq::empty(), at))
    } else {
        match spec_read_fields(bytes, at, (count - 1) as nat) {
            Some((fields, next)) => match spec_read_text(bytes, next) {
                Some((name, end)) => if end < bytes.len() {
                    match type_of_code(bytes[end]) {
                        Some(data_type) => Some(
                            (fields.push(FieldView { name, data_type }), end + 1),
                        ),
                        None => None,
                    }
                } else {
                    None
                },
                None => None,
            },
            None => None,
        }
    }
}

/// The table that stored bytes hold, if they hold one and nothing else.
pub open spec fn spec_read_table(bytes: Seq<u8>) -> Option<TableView> {
    match spec_read_text(bytes, 0) {
        Some((name, at)) => if at + 4 <= bytes.len() {
            match spec_read_fields(bytes, at + 4, be_value(bytes.subrange(at, at + 4))) {
                Some((primary_keys, end)) => if end == bytes.len() {
                    Some(TableView { name, primary_keys })
                } else {
                    None
                },
                None => None,
            }
        } else {
            None
        },
        None => None,
    }
}

/// The database that stored bytes hold, if they hold one and nothing else.
pub open spec fn spec_read_database(bytes: Seq<u8>) -> Option<Seq<char>> {
    match spec_read_text(bytes, 0) {
        Some((name, end)) => if end == bytes.len() {
            Some(name)
        } else {
            None
        },
        None => None,
    }
}

fn code_of(data_type: DataType) -> (code: u8)
    ensures
        code == type_code(data_type),
{
    match data_type {
        DataType::Unknown => 0,
        DataType::String => 1,
        DataType::Boolean => 2,
        DataType::DateTime => 3,
        DataType::Int32 => 4,
        DataType::Int64 => 5,
        DataType::Float32 => 6,
        DataType::Float64 => 7,
    }
}

fn type_for(code: u8) -> (data_type: Option<DataType>)
    ensures
        data_type == type_of_code(code),
{
    if code == 0 {
        Some(DataType::Unknown)
    } else if code == 1 {
        Some(DataType::String)
    } else if code == 2 {
        Some(DataType::Boolean)
    } else if code == 3 {
        Some(DataType::DateTime)
    } else if code == 4 {
        Some(DataType::Int32)
    } else if code == 5 {
        Some(DataType::Int64)
    } else if code == 6 {
        Some(DataType::Float32)
    } else if code == 7 {
        Some(DataType::Float64)
    } else {
        None
    }
}

/// The error for a name or a list too long to be stored.
fn too_long() -> (error: ConstDBError)
    ensures
        error@ == ErrorView::InvalidStates(
            "serialization failed: a length does not fit in four bytes"@,
        ),
{
    ConstDBError::InvalidStates(String::from_str("serialization failed: a length does not fit in four bytes"))
}

/// The error for bytes that are no stored record.
fn malformed() -> (error: ConstDBError)
    ensures
        error@ == ErrorView::InvalidStates("serialization failed: malformed catalog record"@),
{
    ConstDBError::InvalidStates(String::from_str("serialization failed: malformed catalog record"))
}

/// Appends a text to `out`; `false` where its length does not fit.
fn write_text(out: &mut Vec<u8>, text: &str) -> (written: bool)
    ensures
        written == (encode_utf8(text@).len() <= u32::MAX),
        written ==> final(out)@ == old(out)@ + spec_write_text(text@),
{
    let mut bytes = text.as_bytes_vec();
    if bytes.len() > 0xffff_ffff {
        return false;
    }
    let mut length = encode_u32(bytes.len() as u32);
    let ghost before = out@;
    out.append(&mut length);
    out.append(&mut bytes);
    assert(out@ =~= before + spec_write_text(text@));
    true
}

/// The four bytes at `at` as a number.
fn read_length(bytes: &[u8], at: usize) -> (length: usize)
    requires
        at + 4 <= bytes@.len(),
    ensures
        length == be_value(bytes@.subrange(at as int, at + 4)),
        length <= u32::MAX,
{
    let ghost four = bytes@.subrange(at as int, at + 4);
    proof {
        reveal_with_fuel(be_value, 5);
        assert(four.drop_last().drop_last().drop_last().drop_last().len() == 0);
        assert(four.last() == bytes@[at + 3]);
        assert(four.drop_last().last() == bytes@[at + 2]);
        assert(four.drop_last().drop_last().last() == bytes@[at + 1]);
        assert(four.drop_last().drop_last().drop_last().last() == bytes@[at as int]);
    }
    let b0: u64 = bytes[at] as u64;
    let b1: u64 = bytes[at + 1] as u64;
    let b2: u64 = bytes[at + 2] as u64;
    let b3: u64 = bytes[at + 3] as u64;
    let value: u64 = ((b0 * 256 + b1) * 256 + b2) * 256 + b3;
    value as usize
}

/// Reads the text stored at `at`.
fn read_text(bytes: &[u8], at: usize) -> (read: Option<(String, usize)>)
    requires
        at <= bytes@.len(),
    ensures
        match spec_read_text(bytes@, at as int) {
            Some((text, end)) => read matches Some(pair) && pair.0@ == text && pair.1 == end
                && end <= bytes@.len(),
            None => read is None,
        },
{
    if bytes.len() - at < 4 {
        return None;
    }
    let length = read_length(bytes, at);
    let start = at + 4;
    if bytes.len() - start < length {
        return None;
    }
    let end = start + length;
    match string_from_utf8(slice_to_vec(slice_subrange(bytes, start, end))) {
        Some(text) => Some((text, end)),
        None => None,
    }
}

impl DBSettings {
    /// The database as the catalog stores it.
    ///
    /// Fails with `InvalidStates` where the name is too long to be stored.
    pub fn write_to_bytes(&self) -> (bytes: Result<Vec<u8>, ConstDBError>)
        ensures
            match bytes {
                Ok(b) => b@ == spec_write_text(self@) && encode_utf8(self@).len() <= u32::MAX,
                Err(e) => e@ is InvalidStates && encode_utf8(self@).len() > u32::MAX,
            },
    {
        let mut out: Vec<u8> = Vec::new();
        if write_text(&mut out, self.name.as_str()) {
            assert(out@ =~= spec_write_text(self@));
            Ok(out)
        } else {
            Err(too_long())
        }
    }

    /// Reads a database from the bytes that the catalog stores.
    ///
    /// Fails with `InvalidStates` where the bytes are not a stored database.
    pub fn parse_from_bytes(bytes: &[u8]) -> (db: Result<DBSettings, ConstDBError>)
        ensures
            match spec_read_database(bytes@) {
                Some(name) => db matches Ok(d) && d@ == name,
                None => db matches Err(e) && e@ is InvalidStates,
            },
    {
        match read_text(bytes, 0) {
            Some((name, end)) => {
                if end == bytes.len() {
                    Ok(DBSettings { name })
                } else {
                    Err(malformed())
                }
            },
            None => Err(malformed()),
        }
    }
}

impl TableSettings {
    /// The table as the catalog stores it.
    ///
    /// Fails with `InvalidStates` where a name or the list of key fields is
    /// too long to be stored.
    pub fn write_to_bytes(&self) -> (bytes: Result<Vec<u8>, ConstDBError>)
        ensures
            match bytes {
                Ok(b) => b@ == spec_write_table(self@) && storable(self@),
                Err(e) => e@ is InvalidStates && !storable(self@),
            },
    {
        let ghost keys = self@.primary_keys;
        let mut out: Vec<u8> = Vec::new();
        if !write_text(&mut out, self.name.as_str()) {
            return Err(too_long());
        }
        if self.primary_keys.len() > 0xffff_ffff {
            return Err(too_long());
        }
        let mut count = encode_u32(self.primary_keys.len() as u32);
        out.append(&mut count);
        let ghost head = out@;
        assert(head =~= spec_write_text(self@.name) + be_bytes(keys.len(), 4));
        let mut i: usize = 0;
        while i < self.primary_keys.len()
            invariant
                i <= self.primary_keys.len(),
                keys == self@.primary_keys,
                out@ == head + spec_write_fields(keys.subrange(0, i as int)),
                forall|j: int| 0 <= j < i ==> encode_utf8((#[trigger] keys[j]).name).len() <= u32::MAX,
            decreases self.primary_keys.len() - i,
        {
            let field = &self.primary_keys[i];
            assert(keys[i as int] == field@);
            let ghost before = out@;
            if !write_text(&mut out, field.name.as_str()) {
                return Err(too_long());
            }
            out.push(code_of(field.data_type));
            proof {
                let done = keys.subrange(0, i as int);
                let more = keys.subrange(0, i + 1);
                assert(more.drop_last() =~= done);
                assert(more.last() == keys[i as int]);
                assert(out@ =~= head + spec_write_fields(more));
            }
            i = i + 1;
        }
        assert(keys.subrange(0, i as int) =~= keys);
        assert(out@ =~= spec_write_table(self@));
        Ok(out)
    }

    /// Reads a table from the bytes that the catalog stores.
    ///
    /// Fails with `InvalidStates` where the bytes are not a stored table.
    pub fn parse_from_bytes(bytes: &[u8]) -> (table: Result<TableSettings, ConstDBError>)
        ensures
            match spec_read_table(bytes@) {
                Some(read) => table matches Ok(t) && t@ == read,
                None => table matches Err(e) && e@ is InvalidStates,
            },
    {
        let (name, at) = match read_text(bytes, 0) {
            Some(pair) => pair,
            None => {
                return Err(malformed());
            },
        };
        if bytes.len() - at < 4 {
            return Err(malformed());
        }
        let count = read_length(bytes, at);
        let start = at + 4;
        let mut primary_keys: Vec<Field> = Vec::new();
        let mut next: usize = start;
        let mut i: usize = 0;
        while i < count
            invariant
                i <= count,
                next <= bytes@.len(),
                primary_keys@.len() == i,
                start == at + 4,
                start <= bytes@.len(),
                spec_read_text(bytes@, 0) == Some((name@, at as int)),
                count == be_value(bytes@.subrange(at as int, at + 4)),
                spec_read_fields(bytes@, start as int, i as nat) == Some(
                    (fields_view(primary_keys@), next as int),
                ),
            decreases count - i,
        {
            let ghost so_far = fields_view(primary_keys@);
            let (field_name, end) = match read_text(bytes, next) {
                Some(pair) => pair,
                None => {
                    proof {
                        assert(spec_read_fields(bytes@, start as int, (i + 1) as nat) is None);
                        lemma_read_fields_fail(bytes@, start as int, (i + 1) as nat, count as nat);
                    }
                    return Err(malformed());
                },
            };
            if end >= bytes.len() {
                proof {
                    assert(spec_read_fields(bytes@, start as int, (i + 1) as nat) is None);
                    lemma_read_fields_fail(bytes@, start as int, (i + 1) as nat, count as nat);
                }
                return Err(malformed());
            }
            let data_type = match type_for(bytes[end]) {
                Some(data_type) => data_type,
                None => {
                    proof {
                        assert(spec_read_fields(bytes@, start as int, (i + 1) as nat) is None);
                        lemma_read_fields_fail(bytes@, start as int, (i + 1) as nat, count as nat);
                    }
                    return Err(malformed());
                },
            };
            primary_keys.push(Field { name: field_name, data_type });
            proof {
                assert(fields_view(primary_keys@) =~= so_far.push(
                    FieldView { name: field_name@, data_type },
                ));
            }
            next = end + 1;
            i = i + 1;
        }
        if next == bytes.len() {
            Ok(TableSettings { name, primary_keys })
        } else {
            Err(malformed())
        }
    }
}

/// Once a key field cannot be read, no longer list of key fields can.
pub proof fn lemma_read_fields_fail(bytes: Seq<u8>, at: int, failed: nat, count: nat)
    requires
        failed <= count,
        spec_read_fields(bytes, at, failed) is None,
    ensures
        spec_read_fields(bytes, at, count) is None,
    decreases count - failed,
{
    if failed < count {
        lemma_read_fields_fail(bytes, at, failed, (count - 1) as nat);
    }
}

/// Big-endian bytes denote the number they were made of.
pub proof fn lemma_be_value_of_bytes(value: nat, width: nat)
    requires
        value < radix_power(width),
    ensures
        be_value(be_bytes(value, width)) == value,
    decreases width,
{
    if width > 0 {
        let head = be_bytes(value / 256, (width - 1) as nat);
        let digit = (value % 256) as u8;
        assert(head.push(digit).drop_last() =~= head);
        lemma_be_value_of_bytes(value / 256, (width - 1) as nat);
    }
}

/// A stored text is read back, wherever it stands.
pub proof fn lemma_read_written_text(bytes: Seq<u8>, at: int, text: Seq<char>)
    requires
        encode_utf8(text).len() <= u32::MAX,
        0 <= at,
        at + 4 + encode_utf8(text).len() <= bytes.len(),
        bytes.subrange(at, at + 4) == be_bytes(encode_utf8(text).len(), 4),
        bytes.subrange(at + 4, at + 4 + encode_utf8(text).len()) == encode_utf8(text),
    ensures
        spec_read_text(bytes, at) == Some((text, at + 4 + encode_utf8(text).len())),
{
    broadcast use encode_utf8_valid_utf8, encode_utf8_decode_utf8;

    reveal_with_fuel(radix_power, 5);
    lemma_be_value_of_bytes(encode_utf8(text).len(), 4);
}

/// The length of a stored text.
pub proof fn lemma_written_text_len(text: Seq<char>)
    ensures
        spec_write_text(text).len() == 4 + encode_utf8(text).len(),
        spec_write_text(text).subrange(0, 4) == be_bytes(encode_utf8(text).len(), 4),
        spec_write_text(text).subrange(4, 4 + encode_utf8(text).len() as int) == encode_utf8(text),
{
    lemma_be_bytes_len(encode_utf8(text).len(), 4);
    let stored = spec_write_text(text);
    assert(stored.subrange(0, 4) =~= be_bytes(encode_utf8(text).len(), 4));
    assert(stored.subrange(4, 4 + encode_utf8(text).len() as int) =~= encode_utf8(text));
}

/// A stored text is read back from the place where it was copied to.
pub proof fn lemma_read_copied_text(bytes: Seq<u8>, at: int, text: Seq<char>)
    requires
        encode_utf8(text).len() <= u32::MAX,
        0 <= at,
        at + spec_write_text(text).len() <= bytes.len(),
        bytes.subrange(at, at + spec_write_text(text).len()) == spec_write_text(text),
    ensures
        spec_read_text(bytes, at) == Some((text, at + spec_write_text(text).len())),
        spec_write_text(text).len() == 4 + encode_utf8(text).len(),
{
    lemma_written_text_len(text);
    let stored = spec_write_text(text);
    let size = encode_utf8(text).len() as int;
    let copy = bytes.subrange(at, at + stored.len());
    assert(bytes.subrange(at, at + 4) =~= copy.subrange(0, 4));
    assert(bytes.subrange(at + 4, at + 4 + size) =~= copy.subrange(4, 4 + size));
    lemma_read_written_text(bytes, at, text);
}

/// The byte of a data type stands for that data type.
pub proof fn lemma_type_code_round_trip(data_type: DataType)
    ensures
        type_of_code(type_code(data_type)) == Some(data_type),
{
}

/// One more key field is read where the fields before it and the field
/// itself can be read.
pub proof fn lemma_read_one_more_field(
    bytes: Seq<u8>,
    at: int,
    count: nat,
    fields: Seq<FieldView>,
    next: int,
    field: FieldView,
    end: int,
)
    requires
        spec_read_fields(bytes, at, count) == Some((fields, next)),
        spec_read_text(bytes, next) == Some((field.name, end)),
        end < bytes.len(),
        bytes[end] == type_code(field.data_type),
    ensures
        spec_read_fields(bytes, at, count + 1) == Some((fields.push(field), end + 1)),
{
    lemma_type_code_round_trip(field.data_type);
    assert((count + 1 - 1) as nat == count);
}

/// Stored key fields are read back from the place where they were copied
/// to.
pub proof fn lemma_read_copied_fields(bytes: Seq<u8>, at: int, fields: Seq<FieldView>)
    requires
        forall|i: int|
            0 <= i < fields.len() ==> encode_utf8((#[trigger] fields[i]).name).len() <= u32::MAX,
        0 <= at,
        at + spec_write_fields(fields).len() <= bytes.len(),
        bytes.subrange(at, at + spec_write_fields(fields).len()) == spec_write_fields(fields),
    ensures
        spec_read_fields(bytes, at, fields.len()) == Some(
            (fields, at + spec_write_fields(fields).len()),
        ),
    decreases fields.len(),
{
    if fields.len() == 0 {
        assert(fields =~= Seq::<FieldView>::empty());
    } else {
        let init = fields.drop_last();
        let last = fields.last();
        let stored = spec_write_fields(fields);
        let head = spec_write_fields(init);
        let name = spec_write_text(last.name);
        let copy = bytes.subrange(at, at + stored.len());
        let head_len = head.len() as int;
        let name_len = name.len() as int;
        lemma_written_text_len(last.name);
        assert(stored == head + (name + seq![type_code(last.data_type)]));
        assert(stored.len() == head.len() + name.len() + 1);
        let next = at + head.len();
        let end = next + name.len();
        assert(bytes.subrange(at, next) =~= head) by {
            assert(bytes.subrange(at, next) =~= copy.subrange(0, head_len));
            assert(stored.subrange(0, head_len) =~= head);
        }
        assert(bytes.subrange(next, end) =~= name) by {
            assert(bytes.subrange(next, end) =~= copy.subrange(head_len, head_len + name_len));
            assert(stored.subrange(head_len, head_len + name_len) =~= name);
        }
        assert(bytes[end] == type_code(last.data_type)) by {
            assert(bytes[end] == copy[head_len + name_len]);
            assert(stored[head_len + name_len] == type_code(last.data_type));
        }
        assert forall|i: int| 0 <= i < init.len() implies encode_utf8(
            (#[trigger] init[i]).name,
        ).len() <= u32::MAX by {
            assert(init[i] == fields[i]);
        }
        lemma_read_copied_fields(bytes, at, init);
        lemma_read_copied_text(bytes, next, last.name);
        lemma_read_one_more_field(bytes, at, init.len(), init, next, last, end);
        assert(init.push(last) =~= fields);
    }
}

/// A stored table is read back as it was.
pub proof fn law_table_record_round_trip(table: TableView)
    requires
        storable(table),
    ensures
        spec_read_table(spec_write_table(table)) == Some(table),
{
    let name = spec_write_text(table.name);
    let count = be_bytes(table.primary_keys.len(), 4);
    let fields = spec_write_fields(table.primary_keys);
    let bytes = spec_write_table(table);
    lemma_be_bytes_len(table.primary_keys.len(), 4);
    lemma_written_text_len(table.name);
    let at = name.len() as int;
    assert(bytes.len() == at + 4 + fields.len());
    assert(bytes.subrange(0, at) =~= name);
    lemma_read_copied_text(bytes, 0, table.name);
    assert(bytes.subrange(at, at + 4) =~= count);
    assert(be_value(count) == table.primary_keys.len()) by {
        reveal_with_fuel(radix_power, 5);
        lemma_be_value_of_bytes(table.primary_keys.len(), 4);
    }
    assert(bytes.subrange(at + 4, at + 4 + fields.len()) =~= fields);
    lemma_read_copied_fields(bytes, at + 4, table.primary_keys);
}

/// A stored database is read back as it was.
pub proof fn law_database_record_round_trip(name: Seq<char>)
    requires
        encode_utf8(name).len() <= u32::MAX,
    ensures
        spec_read_database(spec_write_text(name)) == Some(name),
{
    let bytes = spec_write_text(name);
    lemma_written_text_len(name);
    assert(bytes.subrange(0, bytes.len() as int) =~= bytes);
    lemma_read_copied_text(bytes, 0, name);
}

/// Bytes are the big-endian bytes of the number they denote.
pub proof fn lemma_be_bytes_of_value(bytes: Seq<u8>)
    ensures
        be_bytes(be_value(bytes), bytes.len()) == bytes,
        be_value(bytes) < radix_power(bytes.len()),
    decreases bytes.len(),
{
    if bytes.len() > 0 {
        let head = bytes.drop_last();
        lemma_be_bytes_of_value(head);
        let value = be_value(bytes);
        assert(value / 256 == be_value(head));
        assert(value % 256 == bytes.last() as nat);
        assert(be_bytes(value, bytes.len()) =~= bytes);
    } else {
        assert(be_bytes(be_value(bytes), 0) =~= bytes);
    }
}

/// A text that is read at a place is stored at that place.
pub proof fn lemma_read_text_is_written(bytes: Seq<u8>, at: int)
    requires
        spec_read_text(bytes, at) is Some,
    ensures
        match spec_read_text(bytes, at) {
            Some((text, end)) => at + 4 <= end <= bytes.len() && bytes.subrange(at, end)
                == spec_write_text(text) && encode_utf8(text).len() <= u32::MAX,
            None => false,
        },
{
    let size = bytes.subrange(at, at + 4);
    let end = at + 4 + be_value(size);
    let form = bytes.subrange(at + 4, end);
    lemma_be_bytes_of_value(size);
    reveal_with_fuel(radix_power, 5);
    decode_utf8_encode_utf8(form);
    assert(bytes.subrange(at, end) =~= size + form);
}

/// Key fields that are read at a place are stored at that place.
pub proof fn lemma_read_fields_are_written(bytes: Seq<u8>, at: int, count: nat)
    requires
        0 <= at <= bytes.len(),
        spec_read_fields(bytes, at, count) is Some,
    ensures
        match spec_read_fields(bytes, at, count) {
            Some((fields, end)) => at <= end <= bytes.len() && fields.len() == count
                && bytes.subrange(at, end) == spec_write_fields(fields) && forall|i: int|
                0 <= i < fields.len() ==> encode_utf8((#[trigger] fields[i]).name).len()
                    <= u32::MAX,
            None => false,
        },
    decreases count,
{
    if count == 0 {
        assert(bytes.subrange(at, at) =~= Seq::<u8>::empty());
    } else {
        lemma_read_fields_are_written(bytes, at, (count - 1) as nat);
        let (init, next) = spec_read_fields(bytes, at, (count - 1) as nat)->0;
        lemma_read_text_is_written(bytes, next);
        let (name, end) = spec_read_text(bytes, next)->0;
        let data_type = type_of_code(bytes[end])->0;
        let field = FieldView { name, data_type };
        let fields = init.push(field);
        assert(type_code(data_type) == bytes[end]);
        assert(fields.drop_last() =~= init);
        assert(bytes.subrange(at, end + 1) =~= bytes.subrange(at, next) + (bytes.subrange(
            next,
            end,
        ) + seq![bytes[end]]));
        assert forall|i: int| 0 <= i < fields.len() implies encode_utf8(
            (#[trigger] fields[i]).name,
        ).len() <= u32::MAX by {
            if i < init.len() {
                assert(fields[i] == init[i]);
            }
        }
    }
}

/// Bytes that are read as a table are that table as it is stored, so that
/// a table is read from its own stored form and from no other bytes.
pub proof fn law_read_table_is_sound(bytes: Seq<u8>)
    requires
        spec_read_table(bytes) is Some,
    ensures
        storable(spec_read_table(bytes)->0),
        spec_write_table(spec_read_table(bytes)->0) == bytes,
{
    lemma_read_text_is_written(bytes, 0);
    let (name, at) = spec_read_text(bytes, 0)->0;
    let size = bytes.subrange(at, at + 4);
    let count = be_value(size);
    lemma_be_bytes_of_value(size);
    reveal_with_fuel(radix_power, 5);
    lemma_read_fields_are_written(bytes, at + 4, count);
    let (fields, end) = spec_read_fields(bytes, at + 4, count)->0;
    assert(bytes =~= bytes.subrange(0, at) + size + bytes.subrange(at + 4, end));
}

/// Bytes that are read as a database are that database as it is stored.
pub proof fn law_read_database_is_sound(bytes: Seq<u8>)
    requires
        spec_read_database(bytes) is Some,
    ensures
        encode_utf8(spec_read_database(bytes)->0).len() <= u32::MAX,
        spec_write_text(spec_read_database(bytes)->0) == bytes,
{
    lemma_read_text_is_written(bytes, 0);
    assert(bytes.subrange(0, bytes.len() as int) =~= bytes);
}

} // verus!
