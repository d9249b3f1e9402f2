//! Names of the things that operations are about.

use vstd::prelude::*;
use vstd::string::*;

verus! {

/// Names the thing an error is about.
#[derive(Debug, Clone, PartialEq, Eq)]
pub enum Id {
    Database(String),
    Table { db: String, name: String },
    Data,
}

/// The mathematical value of an [`Id`].
pub enum IdView {
    Database(Seq<char>),
    Table { db: Seq<char>, name: Seq<char> },
    Data,
}

impl IdView {
    /// The text an identifier is shown as.
    pub open spec fn text(self) -> Seq<char> {
        match self {
            IdView::Database(name) => "database["@ + name + "]"@,
            IdView::Table { db, name } => "table["@ + db + "."@ + name + "]"@,
            IdView::Data => "data"@,
        }
    }
}

impl View for Id {
    type V = IdView;

    open spec fn view(&self) -> IdView {
        match self {
            Id::Database(name) => IdView::Database(name@),
            Id::Table { db, name } => IdView::Table { db: db@, name: name@ },
            Id::Data => IdView::Data,
        }
    }
}

impl Id {
    /// The identifier of a database.
    pub fn database(name: &str) -> (id: Id)
        ensures
            id@ == IdView::Database(name@),
    {
        Id::Database(name.to_owned())
    }

    /// The identifier of a table.
    pub fn table(db: &str, name: &str) -> (id: Id)
        ensures
            id@ == (IdView::Table { db: db@, name: name@ }),
    {
        Id::Table { db: db.to_owned(), name: name.to_owned() }
    }

    /// The identifier as it is shown in messages.
    pub fn to_string(&self) -> (text: String)
        ensures
            text@ == self@.text(),
    {
        match self {
            Id::Database(name) => {
                let mut text = String::from_str("database[");
                text.append(name.as_str());
                text.append("]");
                text
            },
            Id::Table { db, name } => {
                let mut text = String::from_str("table[");
                text.append(db.as_str());
                text.append(".");
                text.append(name.as_str());
                text.append("]");
                text
            },
            Id::Data => String::from_str("data"),
        }
    }
}

} // verus!
