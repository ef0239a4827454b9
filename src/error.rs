//! Why a save could not be read or written, and where in the tree.

use crate::model::FStr;
use vstd::prelude::*;

verus! {

#[derive(Clone, Copy, Debug, PartialEq, Eq)]
pub enum ErrorKind {
    /// The input ended inside a value.
    UnexpectedEnd,
    /// The file does not start with the engine's magic number.
    InvalidHeader,
    /// A property names a type that the format does not have.
    UnknownPropertyType,
    /// A property's declared payload length is not the length of what was read.
    MalformedLength,
    /// A byte that holds a truth value is neither 0 nor 1, a property-identifier
    /// marker is neither 0 nor 1, or a string does not fit its length prefix.
    InvalidValue,
    /// A property's value does not have the shape that its tag calls for.
    TagValueMismatch,
}

/// An error and the names of the properties, outermost first, inside which it
/// was met.
#[derive(Debug, PartialEq, Eq)]
pub struct CodecError {
    pub kind: ErrorKind,
    pub path: Vec<FStr>,
}

impl CodecError {
    pub fn new(kind: ErrorKind) -> (r: CodecError)
        ensures
            r.kind == kind,
            r.path@.len() == 0,
    {
        CodecError { kind, path: Vec::new() }
    }

    /// The same error, met inside the property named `name`.
    pub fn within(self, name: &FStr) -> (r: CodecError)
        ensures
            r.kind == self.kind,
            r.path@.len() == self.path@.len() + 1,
            r.path@[0].same(name),
            r.path@.subrange(1, r.path@.len() as int) == self.path@,
    {
        let mut path = self.path;
        path.insert(0, name.copy());
        let r = CodecError { kind: self.kind, path };
        assert(r.path@.subrange(1, r.path@.len() as int) =~= self.path@);
        r
    }
}

} // verus!
