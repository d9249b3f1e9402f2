//! What the engine knows of the store of one database.

use vstd::prelude::*;
use vstd::string::*;
use crate::errors::ConstDBError;
use crate::errors::ErrorView;
use crate::ids::Id;
use crate::ids::IdView;
use crate::params::same_text;
use crate::protocol::Request;
use crate::protocol::texts;

verus! {

/// The mathematical value of a [`DBInstance`].
pub struct InstanceView {
    pub name: Seq<char>,
    pub root: Seq<char>,
    /// The keyspaces of the open store, or `None` while it is not open.
    pub keyspaces: Option<Seq<Seq<char>>>,
}

/// No text occurs twice.
pub open spec fn distinct(names: Seq<Seq<char>>) -> bool {
    forall|i: int, j: int| 0 <= i < j < names.len() ==> names[i] != names[j]
}

/// What the engine knows of the store of one database: whether it is open,
/// and which keyspaces it holds, one for each table.
#[derive(Debug, Clone, PartialEq, Eq)]
pub struct DBInstance {
    name: String,
    root: String,
    keyspaces: Option<Vec<String>>,
}

impl View for DBInstance {
    type V = InstanceView;

    closed spec fn view(&self) -> InstanceView {
        InstanceView {
            name: self.name@,
            root: self.root@,
            keyspaces: match self.keyspaces {
                Some(names) => Some(texts(names@)),
                None => None,
            },
        }
    }
}

impl InstanceView {
    /// Whether the store is open.
    pub open spec fn is_open(self) -> bool {
        self.keyspaces is Some
    }

    /// Whether the store is open and holds the keyspace of `table`.
    pub open spec fn has_keyspace(self, table: Seq<char>) -> bool {
        self.keyspaces matches Some(names) && names.contains(table)
    }

    /// No keyspace is listed twice.
    pub open spec fn wf(self) -> bool {
        self.keyspaces matches Some(names) ==> distinct(names)
    }
}

/// The position of `name` in `names`, if it occurs.
pub fn position(names: &Vec<String>, name: &str) -> (found: Option<usize>)
    ensures
        match found {
            Some(i) => i < names.len() && names@[i as int]@ == name@ && forall|j: int|
                0 <= j < i ==> names@[j]@ != name@,
            None => !texts(names@).contains(name@),
        },
{
    let mut i: usize = 0;
    while i < names.len()
        invariant
            i <= names.len(),
            forall|j: int| 0 <= j < i ==> names@[j]@ != name@,
        decreases names.len() - i,
    {
        if same_text(names[i].as_str(), name) {
            return Some(i);
        }
        i = i + 1;
    }
    assert forall|j: int| 0 <= j < texts(names@).len() implies texts(names@)[j] != name@ by {
        assert(texts(names@)[j] == names@[j]@);
    }
    None
}

/// Whether no name occurs twice.
pub fn all_distinct(names: &Vec<String>) -> (yes: bool)
    ensures
        yes == distinct(texts(names@)),
{
    let mut i: usize = 0;
    while i < names.len()
        invariant
            i <= names.len(),
            forall|a: int, b: int| 0 <= a < b < names.len() && b < i ==> names@[a]@ != names@[b]@,
        decreases names.len() - i,
    {
        match position(names, names[i].as_str()) {
            Some(first) => {
                if first != i {
                    assert(texts(names@)[first as int] == names@[first as int]@);
                    assert(texts(names@)[i as int] == names@[i as int]@);
                    return false;
                }
            },
            None => {
                assert(texts(names@)[i as int] == names@[i as int]@);
            },
        }
        i = i + 1;
    }
    assert forall|a: int, b: int| 0 <= a < b < texts(names@).len() implies texts(names@)[a]
        != texts(names@)[b] by {
        assert(texts(names@)[a] == names@[a]@);
        assert(texts(names@)[b] == names@[b]@);
    }
    true
}

impl DBInstance {
    /// Whether no keyspace is listed twice.
    pub fn is_consistent(&self) -> (yes: bool)
        ensures
            yes == self@.wf(),
    {
        match &self.keyspaces {
            Some(names) => all_distinct(names),
            None => true,
        }
    }

    /// A database whose store is not open.
    pub fn new(name: &str, root: &str) -> (instance: DBInstance)
        ensures
            instance@ == (InstanceView { name: name@, root: root@, keyspaces: None }),
    {
        DBInstance { name: name.to_owned(), root: root.to_owned(), keyspaces: None }
    }

    /// The name of the database.
    pub fn name(&self) -> (name: &str)
        ensures
            name@ == self@.name,
    {
        self.name.as_str()
    }

    /// The directory of the database.
    pub fn root(&self) -> (root: &str)
        ensures
            root@ == self@.root,
    {
        self.root.as_str()
    }

    /// Whether the store is open.
    pub fn is_open(&self) -> (open: bool)
        ensures
            open == self@.is_open(),
    {
        self.keyspaces.is_some()
    }

    /// The keyspaces of the open store.
    ///
    /// Fails with `InvalidStates` while the store is not open.
    pub fn rocks_db(&self) -> (store: Result<&Vec<String>, ConstDBError>)
        ensures
            match self@.keyspaces {
                Some(names) => store matches Ok(list) && texts(list@) == names,
                None => store matches Err(e) && e@ is InvalidStates,
            },
    {
        match &self.keyspaces {
            Some(names) => Ok(names),
            None => Err(ConstDBError::InvalidStates(String::from_str("rocks db not initialized!"))),
        }
    }

    /// The keyspace of a table.
    ///
    /// Fails with `InvalidStates` while the store is not open and where it
    /// holds no keyspace of that name.
    pub fn rocks_db_for_table(&self, table_name: &str) -> (keyspace: Result<&str, ConstDBError>)
        ensures
            self@.has_keyspace(table_name@) ==> (keyspace matches Ok(name) && name@ == table_name@),
            !self@.has_keyspace(table_name@) ==> (keyspace matches Err(e) && e@ is InvalidStates),
    {
        let names = match self.rocks_db() {
            Ok(names) => names,
            Err(error) => {
                return Err(error);
            },
        };
        match position(names, table_name) {
            Some(i) => {
                assert(texts(names@)[i as int] == names@[i as int]@);
                Ok(names[i].as_str())
            },
            None => Err(ConstDBError::invalid_state("cannot find table for ", table_name)),
        }
    }

    /// The request that opens the store, creating it if it is absent.
    pub fn open_rocks_db(&self) -> (request: Request)
        ensures
            request matches Request::OpenStore { db, path, create } && db@ == self@.name && path@
                == self@.root && create,
    {
        Request::OpenStore { db: self.name.clone(), path: self.root.clone(), create: true }
    }

    /// The request that opens the store if there is one.
    pub fn try_open_rocks_db(&self) -> (request: Request)
        ensures
            request matches Request::OpenStore { db, path, create } && db@ == self@.name && path@
                == self@.root && !create,
    {
        Request::OpenStore { db: self.name.clone(), path: self.root.clone(), create: false }
    }

    /// Records that the store was opened and holds the keyspaces `tables`. A
    /// name that `tables` repeats is recorded once.
    pub fn opened(&mut self, tables: Vec<String>)
        ensures
            final(self)@.name == old(self)@.name,
            final(self)@.root == old(self)@.root,
            final(self)@.is_open(),
            final(self)@.wf(),
            forall|name: Seq<char>|
                final(self)@.has_keyspace(name) <==> texts(tables@).contains(name),
    {
        let mut names: Vec<String> = Vec::new();
        let mut i: usize = 0;
        while i < tables.len()
            invariant
                i <= tables.len(),
                distinct(texts(names@)),
                forall|name: Seq<char>|
                    texts(names@).contains(name) <==> texts(tables@.subrange(0, i as int)).contains(
                        name,
                    ),
            decreases tables.len() - i,
        {
            let ghost before = texts(names@);
            let ghost seen = texts(tables@.subrange(0, i as int));
            let ghost added = tables@[i as int]@;
            let found = position(&names, tables[i].as_str());
            let fresh = found.is_none();
            if fresh {
                names.push(tables[i].clone());
                assert(texts(names@) =~= before.push(added));
            } else {
                assert(before[found.unwrap() as int] == added);
            }
            i = i + 1;
            proof {
                assert(texts(tables@.subrange(0, i as int)) =~= seen.push(added));
                assert forall|name: Seq<char>|
                    texts(names@).contains(name) <==> seen.push(added).contains(name) by {
                    if fresh {
                        lemma_push_contains(before, added, name);
                    }
                    lemma_push_contains(seen, added, name);
                    assert(before.contains(name) <==> seen.contains(name));
                }
            }
        }
        assert(tables@.subrange(0, tables@.len() as int) =~= tables@);
        self.keyspaces = Some(names);
    }

    /// The request that creates the keyspace of a table.
    ///
    /// Fails with `InvalidStates` while the store is not open, and with
    /// `AlreadyExists` where the store holds a keyspace of that name.
    pub fn create_table(&self, table_name: &str) -> (request: Result<Request, ConstDBError>)
        ensures
            !self@.is_open() ==> (request matches Err(e) && e@ is InvalidStates),
            self@.has_keyspace(table_name@) ==> (request matches Err(e) && e@
                == ErrorView::AlreadyExists(IdView::Table { db: self@.name, name: table_name@ })),
            self@.is_open() && !self@.has_keyspace(table_name@) ==> (request matches Ok(
                Request::CreateKeyspace { db, table },
            ) && db@ == self@.name && table@ == table_name@),
    {
        let names = match self.rocks_db() {
            Ok(names) => names,
            Err(error) => {
                return Err(error);
            },
        };
        match position(names, table_name) {
            Some(i) => {
                assert(texts(names@)[i as int] == names@[i as int]@);
                Err(ConstDBError::AlreadyExists(Id::table(self.name.as_str(), table_name)))
            },
            None => Ok(
                Request::CreateKeyspace { db: self.name.clone(), table: table_name.to_owned() },
            ),
        }
    }

    /// Records that the keyspace of a table was created.
    pub fn table_created(&mut self, table_name: &str)
        requires
            old(self)@.wf(),
        ensures
            final(self)@.wf(),
            final(self)@.name == old(self)@.name,
            final(self)@.root == old(self)@.root,
            final(self)@.is_open() == old(self)@.is_open(),
            forall|name: Seq<char>|
                final(self)@.has_keyspace(name) <==> old(self)@.has_keyspace(name) || (old(
                    self,
                )@.is_open() && name == table_name@),
    {
        match &mut self.keyspaces {
            Some(names) => {
                let ghost before = texts(names@);
                let found = position(names, table_name);
                if found.is_none() {
                    names.push(table_name.to_owned());
                    assert(texts(names@) =~= before.push(table_name@));
                    assert forall|name: Seq<char>|
                        texts(names@).contains(name) <==> before.contains(name) || name
                            == table_name@ by {
                        lemma_push_contains(before, table_name@, name);
                    }
                } else {
                    assert(before[found.unwrap() as int] == table_name@);
                }
            },
            None => {},
        }
    }

    /// The request that removes the keyspace of a table.
    ///
    /// Fails with `NotFound` where the store holds no keyspace of that
    /// name, which includes a store that is not open.
    pub fn delete_table(&self, table_name: &str) -> (request: Result<Request, ConstDBError>)
        ensures
            !self@.has_keyspace(table_name@) ==> (request matches Err(e) && e@
                == ErrorView::NotFound(IdView::Table { db: self@.name, name: table_name@ })),
            self@.has_keyspace(table_name@) ==> (request matches Ok(
                Request::DropKeyspace { db, table },
            ) && db@ == self@.name && table@ == table_name@),
    {
        let found = match &self.keyspaces {
            Some(names) => {
                let found = position(names, table_name);
                proof {
                    if let Some(i) = found {
                        assert(texts(names@)[i as int] == names@[i as int]@);
                    }
                }
                found.is_some()
            },
            None => false,
        };
        if found {
            Ok(Request::DropKeyspace { db: self.name.clone(), table: table_name.to_owned() })
        } else {
            Err(ConstDBError::NotFound(Id::table(self.name.as_str(), table_name)))
        }
    }

    /// Records that the keyspace of a table was removed.
    pub fn table_deleted(&mut self, table_name: &str)
        requires
            old(self)@.wf(),
        ensures
            final(self)@.wf(),
            final(self)@.name == old(self)@.name,
            final(self)@.root == old(self)@.root,
            final(self)@.is_open() == old(self)@.is_open(),
            forall|name: Seq<char>|
                final(self)@.has_keyspace(name) <==> old(self)@.has_keyspace(name) && name
                    != table_name@,
    {
        match &mut self.keyspaces {
            Some(names) => {
                let ghost before = texts(names@);
                match position(names, table_name) {
                    Some(i) => {
                        names.remove(i);
                        assert(texts(names@) =~= before.remove(i as int));
                        assert(before[i as int] == table_name@);
                        assert forall|name: Seq<char>|
                            texts(names@).contains(name) <==> before.contains(name) && name
                                != table_name@ by {
                            lemma_remove_contains(before, i as int, name);
                        }
                        assert(distinct(before.remove(i as int)));
                    },
                    None => {},
                }
            },
            None => {},
        }
    }
}

/// A list with one more name holds the names it held and the new one.
pub proof fn lemma_push_contains(names: Seq<Seq<char>>, added: Seq<char>, name: Seq<char>)
    ensures
        names.push(added).contains(name) <==> names.contains(name) || name == added,
{
    let longer = names.push(added);
    if names.contains(name) {
        let i = choose|i: int| 0 <= i < names.len() && names[i] == name;
        assert(longer[i] == name);
    }
    if name == added {
        assert(longer[names.len() as int] == name);
    }
    if longer.contains(name) {
        let i = choose|i: int| 0 <= i < longer.len() && longer[i] == name;
        if i < names.len() {
            assert(names[i] == name);
        }
    }
}

/// A list of distinct names without one of them holds the others, and they
/// are distinct.
pub proof fn lemma_remove_contains(names: Seq<Seq<char>>, at: int, name: Seq<char>)
    requires
        0 <= at < names.len(),
        distinct(names),
    ensures
        names.remove(at).contains(name) <==> names.contains(name) && name != names[at],
        distinct(names.remove(at)),
{
    let shorter = names.remove(at);
    if shorter.contains(name) {
        let i = choose|i: int| 0 <= i < shorter.len() && shorter[i] == name;
        if i < at {
            assert(names[i] == name);
        } else {
            assert(names[i + 1] == name);
        }
    }
    if names.contains(name) && name != names[at] {
        let i = choose|i: int| 0 <= i < names.len() && names[i] == name;
        if i < at {
            assert(shorter[i] == name);
        } else {
            assert(shorter[i - 1] == name);
        }
    }
}

} // verus!
