//! Errors of the serving layer.
use crate::text::{decimal, decimal_text, lossy_text, signed_decimal, signed_decimal_text};
use vstd::prelude::*;
use vstd::string::StringExecFns;

verus! {

#[derive(Debug)]
pub enum Error {
    /// No index is published under this name.
    NoIndexLoaded(String),
    /// A query vector's length differs from the index's dimension:
    /// (expected, got).
    DimensionError(usize, usize),
    /// A dispatched search's result could not be delivered.
    CancelledFuture,
    /// An artifact could not be read.
    IoError(std::io::Error),
    /// The dimension artifact does not hold a positive `i32`; carries its text.
    ParsingError(String),
    /// A search by id named an id that the index does not map.
    NoProductVectorFound(i64),
    /// The index artifacts could not be loaded.
    IndexError(crate::err::Error),
    /// No route answers the request.
    NotFound,
}

impl Error {
    /// A description of the error for people.
    pub fn message(&self) -> (r: String)
        ensures
            *self is NoIndexLoaded ==> r@ == "No index loaded for "@ + self->NoIndexLoaded_0@,
            *self is DimensionError ==> r@ == "Dimension does not match expected "@ + lossy_text(
                decimal(self->DimensionError_0 as nat),
            ) + " got "@ + lossy_text(decimal(self->DimensionError_1 as nat)),
            *self is CancelledFuture ==> r@ == "Operation has been cancelled"@,
            *self is ParsingError ==> r@ == "Error parsing "@ + self->ParsingError_0@,
            *self is NoProductVectorFound ==> r@ == lossy_text(
                signed_decimal(self->NoProductVectorFound_0 as int),
            ),
            *self is NotFound ==> r@ == "Not found"@,
    {
        match self {
            Error::NoIndexLoaded(v) => {
                let mut r = String::from_str("No index loaded for ");
                r.append(v.as_str());
                r
            },
            Error::DimensionError(expected, got) => {
                let mut r = String::from_str("Dimension does not match expected ");
                let e = decimal_text(*expected as u64);
                r.append(e.as_str());
                r.append(" got ");
                let g = decimal_text(*got as u64);
                r.append(g.as_str());
                r
            },
            Error::CancelledFuture => String::from_str("Operation has been cancelled"),
            Error::IoError(e) => e.to_string(),
            Error::ParsingError(v) => {
                let mut r = String::from_str("Error parsing ");
                r.append(v.as_str());
                r
            },
            Error::NoProductVectorFound(id) => signed_decimal_text(*id),
            Error::IndexError(e) => e.message(),
            Error::NotFound => String::from_str("Not found"),
        }
    }

    /// The HTTP status that answers a request failing with this error: not
    /// found for an unknown index, id or route, bad request for a malformed
    /// query or artifact, and internal error otherwise.
    pub fn status(&self) -> (r: u16)
        ensures
            (self is NoIndexLoaded || self is NoProductVectorFound || self is NotFound) ==> r == 404,
            (self is DimensionError || self is ParsingError || self is IndexError) ==> r == 400,
            (self is CancelledFuture || self is IoError) ==> r == 500,
    {
        match self {
            Error::NoIndexLoaded(_) => 404,
            Error::NoProductVectorFound(_) => 404,
            Error::NotFound => 404,
            Error::DimensionError(_, _) => 400,
            Error::ParsingError(_) => 400,
            Error::IndexError(_) => 400,
            Error::CancelledFuture => 500,
            Error::IoError(_) => 500,
        }
    }
}

} // verus!
