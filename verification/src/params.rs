//! String-valued parameters by name.

use vstd::prelude::*;
use vstd::string::*;

verus! {

/// The map that a list of named values denotes: a later entry of a name
/// replaces an earlier one.
pub open spec fn entries_map(entries: Seq<(String, String)>) -> Map<Seq<char>, Seq<char>>
    decreases entries.len(),
{
    if entries.len() == 0 {
        Map::empty()
    } else {
        entries_map(entries.drop_last()).insert(entries.last().0@, entries.last().1@)
    }
}

/// Whether two strings hold the same text.
pub fn same_text(a: &str, b: &str) -> (same: bool)
    ensures
        same == (a@ == b@),
{
    a.to_owned() == b.to_owned()
}

/// String-valued parameters by name, such as the query of a request.
#[derive(Debug, Clone, PartialEq, Eq)]
pub struct Params {
    entries: Vec<(String, String)>,
}

impl View for Params {
    type V = Map<Seq<char>, Seq<char>>;

    closed spec fn view(&self) -> Map<Seq<char>, Seq<char>> {
        entries_map(self.entries@)
    }
}

impl Params {
    /// No parameters.
    pub fn new() -> (params: Params)
        ensures
            params@ == Map::<Seq<char>, Seq<char>>::empty(),
    {
        Params { entries: Vec::new() }
    }

    /// Binds `name` to `value`, replacing what it was bound to.
    pub fn insert(&mut self, name: &str, value: &str)
        ensures
            final(self)@ == old(self)@.insert(name@, value@),
    {
        let ghost before = self.entries@;
        self.entries.push((name.to_owned(), value.to_owned()));
        assert(self.entries@.drop_last() =~= before);
    }

    /// The value bound to `name`, if any.
    pub fn get(&self, name: &str) -> (value: Option<&str>)
        ensures
            match value {
                Some(text) => self@.contains_key(name@) && self@[name@] == text@,
                None => !self@.contains_key(name@),
            },
    {
        let mut i: usize = self.entries.len();
        assert(self.entries@.subrange(0, i as int) =~= self.entries@);
        while i > 0
            invariant
                i <= self.entries.len(),
                entries_map(self.entries@).contains_key(name@) <==> entries_map(
                    self.entries@.subrange(0, i as int),
                ).contains_key(name@),
                entries_map(self.entries@).contains_key(name@) ==> entries_map(self.entries@)[name@]
                    == entries_map(self.entries@.subrange(0, i as int))[name@],
            decreases i,
        {
            let ghost head = self.entries@.subrange(0, i as int);
            i = i - 1;
            assert(head.drop_last() =~= self.entries@.subrange(0, i as int));
            assert(head.last() == self.entries@[i as int]);
            if same_text(self.entries[i].0.as_str(), name) {
                return Some(self.entries[i].1.as_str());
            }
        }
        assert(self.entries@.subrange(0, 0) =~= Seq::<(String, String)>::empty());
        None
    }
}

} // verus!
