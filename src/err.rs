//! Errors raised while building, persisting and loading an index.
use crate::text::{decimal, decimal_text, lossy_text};
use vstd::prelude::*;
use vstd::string::StringExecFns;

verus! {

/// An error read from the operating system, carried through unchanged.
#[verifier::external_type_specification]
#[verifier::external_body]
pub struct ExIoError(std::io::Error);

#[derive(Debug)]
pub enum Error {
    /// A path could not be turned into text.
    InvalidPath,
    /// An external id was put into a builder that already holds it.
    KeyAlreadyPresent,
    /// The mapping artifact is malformed: a line that writes no id, an id
    /// written twice, or a line count that differs from the vector count;
    /// carries the offending line, or the two counts as text.
    ParsingError(String),
    /// An artifact could not be read.
    IoError(std::io::Error),
    /// The index artifact's length in bytes is not a whole number of vectors
    /// of the index's dimension; carries that length.
    InvalidIndex(usize),
}

impl Error {
    /// A description of the error for people.
    pub fn message(&self) -> (r: String)
        ensures
            *self is InvalidPath ==> r@ == "Path is Invalid"@,
            *self is KeyAlreadyPresent ==> r@ == "Key is already present in the index"@,
            *self is ParsingError ==> r@ == "Unable to parse "@ + self->ParsingError_0@,
            *self is InvalidIndex ==> r@ == "Index artifact of "@ + lossy_text(
                decimal(self->InvalidIndex_0 as nat),
            ) + " bytes is not a whole number of vectors"@,
    {
        match self {
            Error::InvalidPath => String::from_str("Path is Invalid"),
            Error::KeyAlreadyPresent => String::from_str("Key is already present in the index"),
            Error::ParsingError(s) => {
                let mut r = String::from_str("Unable to parse ");
                r.append(s.as_str());
                r
            },
            Error::IoError(e) => e.to_string(),
            Error::InvalidIndex(len) => {
                let mut r = String::from_str("Index artifact of ");
                let n = decimal_text(*len as u64);
                r.append(n.as_str());
                r.append(" bytes is not a whole number of vectors");
                r
            },
        }
    }
}

} // verus!
