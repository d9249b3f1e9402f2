//! Primary keys in binary form.

use vstd::prelude::*;
use vstd::string::*;
use crate::errors::ConstDBError;
use crate::errors::ErrorView;

verus! {

/// A primary key in binary form.
///
/// A `Complete` key binds every key field of its table and addresses one
/// record. A `Prefix` key binds only some leading key fields and addresses a
/// range of records.
#[derive(Debug, Clone, PartialEq, Eq)]
pub enum PrimaryKey {
    Complete(Vec<u8>),
    Prefix(Vec<u8>),
}

/// The mathematical value of a [`PrimaryKey`].
pub enum KeyView {
    Complete(Seq<u8>),
    Prefix(Seq<u8>),
}

impl KeyView {
    /// The bytes of the key, whichever kind it is.
    pub open spec fn bytes(self) -> Seq<u8> {
        match self {
            KeyView::Complete(bytes) => bytes,
            KeyView::Prefix(bytes) => bytes,
        }
    }
}

impl View for PrimaryKey {
    type V = KeyView;

    open spec fn view(&self) -> KeyView {
        match self {
            PrimaryKey::Complete(bytes) => KeyView::Complete(bytes@),
            PrimaryKey::Prefix(bytes) => KeyView::Prefix(bytes@),
        }
    }
}

impl PrimaryKey {
    /// The bytes of the key, whichever kind it is.
    pub fn bytes(&self) -> (bytes: &[u8])
        ensures
            bytes@ == self@.bytes(),
    {
        match self {
            PrimaryKey::Complete(bytes) => bytes.as_slice(),
            PrimaryKey::Prefix(bytes) => bytes.as_slice(),
        }
    }

    /// The bytes of a complete key; a prefix is refused.
    pub fn complete(&self) -> (bytes: Result<&[u8], ConstDBError>)
        ensures
            match self@ {
                KeyView::Complete(key) => bytes matches Ok(b) && b@ == key,
                KeyView::Prefix(_) => bytes matches Err(e) && e@ == ErrorView::InvalidArguments(
                    "primary key not complete"@,
                ),
            },
    {
        match self {
            PrimaryKey::Complete(bytes) => Ok(bytes.as_slice()),
            PrimaryKey::Prefix(_) => Err(
                ConstDBError::InvalidArguments(String::from_str("primary key not complete")),
            ),
        }
    }
}

} // verus!
