//! Tables, their key fields and databases.

use vstd::prelude::*;
use vstd::string::*;

verus! {

/// The declared type of a key field.
#[derive(Debug, Clone, Copy, PartialEq, Eq)]
pub enum DataType {
    Unknown,
    String,
    Boolean,
    DateTime,
    Int32,
    Int64,
    Float32,
    Float64,
}

/// One field of a table's primary key.
#[derive(Debug, Clone, PartialEq, Eq)]
pub struct Field {
    pub name: String,
    pub data_type: DataType,
}

/// The mathematical value of a [`Field`].
pub struct FieldView {
    pub name: Seq<char>,
    pub data_type: DataType,
}

impl View for Field {
    type V = FieldView;

    open spec fn view(&self) -> FieldView {
        FieldView { name: self.name@, data_type: self.data_type }
    }
}

impl Field {
    /// A key field of this name and type.
    pub fn new(name: &str, data_type: DataType) -> (field: Field)
        ensures
            field@ == (FieldView { name: name@, data_type }),
    {
        Field { name: name.to_owned(), data_type }
    }

    /// A copy of the field.
    pub fn duplicate(&self) -> (field: Field)
        ensures
            field@ == self@,
    {
        Field { name: self.name.clone(), data_type: self.data_type }
    }
}

/// A table: its name and the ordered fields of its primary key.
#[derive(Debug, Clone, PartialEq, Eq)]
pub struct TableSettings {
    pub name: String,
    pub primary_keys: Vec<Field>,
}

/// The mathematical value of a [`TableSettings`].
pub struct TableView {
    pub name: Seq<char>,
    pub primary_keys: Seq<FieldView>,
}

/// The values of a list of fields, in order.
pub open spec fn fields_view(fields: Seq<Field>) -> Seq<FieldView> {
    Seq::new(fields.len(), |i: int| fields[i]@)
}

impl View for TableSettings {
    type V = TableView;

    open spec fn view(&self) -> TableView {
        TableView { name: self.name@, primary_keys: fields_view(self.primary_keys@) }
    }
}

impl TableSettings {
    /// A table of this name with these key fields.
    pub fn new(name: &str, primary_keys: Vec<Field>) -> (table: TableSettings)
        ensures
            table@ == (TableView { name: name@, primary_keys: fields_view(primary_keys@) }),
    {
        TableSettings { name: name.to_owned(), primary_keys }
    }

    /// A copy of the table.
    pub fn duplicate(&self) -> (table: TableSettings)
        ensures
            table@ == self@,
    {
        let mut primary_keys: Vec<Field> = Vec::new();
        let mut i: usize = 0;
        while i < self.primary_keys.len()
            invariant
                i <= self.primary_keys.len(),
                primary_keys.len() == i,
                forall|j: int| 0 <= j < i ==> primary_keys@[j]@ == self.primary_keys@[j]@,
            decreases self.primary_keys.len() - i,
        {
            primary_keys.push(self.primary_keys[i].duplicate());
            i = i + 1;
        }
        assert(fields_view(primary_keys@) =~= fields_view(self.primary_keys@));
        TableSettings { name: self.name.clone(), primary_keys }
    }
}

/// A database, as the catalog describes it.
#[derive(Debug, Clone, PartialEq, Eq)]
pub struct DBSettings {
    pub name: String,
}

impl View for DBSettings {
    type V = Seq<char>;

    open spec fn view(&self) -> Seq<char> {
        self.name@
    }
}

impl DBSettings {
    /// A database of this name.
    pub fn new(name: &str) -> (db: DBSettings)
        ensures
            db@ == name@,
    {
        DBSettings { name: name.to_owned() }
    }
}

} // verus!
