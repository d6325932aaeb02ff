//! Errors that carry the path from the document root to the offending value.
use vstd::prelude::*;

verus! {

/// One navigation step from the root of a document towards a value.
#[derive(Debug, Clone, PartialEq, Eq)]
pub enum PathPart {
    /// Traversal into a named compound field.
    Field(String),
    /// Traversal into the element with this index of a list or array.
    Element(usize),
}

/// The error of `String::from_utf8`, carried through unchanged.
#[verifier::external_type_specification]
#[verifier::external_body]
pub struct ExFromUtf8Error(std::string::FromUtf8Error);

/// The way in which reading from a byte source failed.
#[derive(Debug, Clone, Copy, PartialEq, Eq)]
pub enum IoFailure {
    /// The source ended before the requested bytes were read.
    UnexpectedEof,
}

/// Why reading a value failed.
#[derive(Debug, PartialEq, Eq)]
pub enum ReadError {
    /// The byte source failed.
    Io(IoFailure),
    /// A tag byte other than the expected one: what was expected, and the byte seen.
    UnexpectedTag(String, String),
    /// A sequence length outside the permitted range: the maximum, and the length seen.
    SeqLengthViolation(usize, i32),
    /// The bytes of a string are not UTF-8.
    InvalidUtf8(std::string::FromUtf8Error),
    /// Any other reason.
    Custom(String),
}

/// Why writing a value failed.
#[derive(Debug, Clone, PartialEq, Eq)]
pub enum WriteError {
    /// A sequence longer than the format permits: the maximum, and the length seen.
    SeqLengthViolation(usize, usize),
    /// Any other reason.
    Custom(String),
}

/// An error reason together with the path, root first, to the value at fault.
#[derive(Debug, Clone, PartialEq, Eq)]
pub struct ErrorPath<R> {
    pub reason: R,
    pub path: Vec<PathPart>,
}

impl<R> ErrorPath<R> {
    /// An error with an empty path.
    pub fn new(reason: R) -> (r: Self)
        ensures
            r.reason == reason,
            r.path@ == Seq::<PathPart>::empty(),
    {
        ErrorPath { reason, path: Vec::new() }
    }

    /// Places `part` at the root end of the path.
    pub fn prepend(self, part: PathPart) -> (r: Self)
        ensures
            r.reason == self.reason,
            r.path@ == seq![part].add(self.path@),
    {
        let mut e = self;
        e.path.insert(0, part);
        proof {
            assert(e.path@ =~= seq![part].add(self.path@));
        }
        e
    }
}

} // verus!
