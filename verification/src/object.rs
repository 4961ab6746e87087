//! Objects as a backend hands them out.

use crate::path::copy_bytes;
use vstd::prelude::*;

verus! {

/// The kinds of object that a repository stores.
#[derive(Clone, Copy, Debug, PartialEq, Eq, Structural)]
pub enum Kind {
    Tree,
    Blob,
    Commit,
    Tag,
}

/// An object: its kind and its bytes as they are stored.
#[derive(Debug)]
pub struct Object {
    pub kind: Kind,
    pub data: Vec<u8>,
}

impl View for Object {
    type V = (Kind, Seq<u8>);

    open spec fn view(&self) -> (Kind, Seq<u8>) {
        (self.kind, self.data@)
    }
}

impl Object {
    /// A copy of this object.
    pub fn duplicate(&self) -> (copy: Object)
        ensures
            copy@ == self@,
    {
        Object { kind: self.kind, data: copy_bytes(self.data.as_slice()) }
    }
}

/// The object that an optional object holds, if it holds one.
pub open spec fn object_of(object: Option<Object>) -> Option<(Kind, Seq<u8>)> {
    match object {
        Some(o) => Some(o@),
        None => None,
    }
}

/// Why a backend could not answer.
#[derive(Clone, Copy, Debug, PartialEq, Eq, Structural)]
pub enum BackendError {
    /// An index does not hold what its format asks for.
    CorruptIndex,
    /// A pack cannot be read.
    UnreadablePack,
    /// A stored object cannot be read or decoded.
    UnreadableObject,
}

/// What a backend answers: the object, `None` where it has none under the
/// identity, or why it could not tell.
pub open spec fn answer_of(found: Result<Option<Object>, BackendError>) -> Result<
    Option<(Kind, Seq<u8>)>,
    BackendError,
> {
    match found {
        Ok(object) => Ok(object_of(object)),
        Err(error) => Err(error),
    }
}

} // verus!
