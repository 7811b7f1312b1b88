//! The errors of the library.
use crate::catalog::KsDevErr;
use crate::format::{DTError, ParseError};
use vstd::prelude::*;

verus! {

#[derive(Debug)]
pub enum Error {
    /// The transport failed; its own description.
    Io(String),
    /// No reply came before the timeout in force ran out.
    Timeout,
    /// The instrument reported this error.
    Dev(KsDevErr),
    /// The instrument reported a code that the catalog does not list.
    UnknownCode(i32),
    /// A reading stood for "no valid measurement" yet the error queue was
    /// empty.
    Inconsistent,
    Parse(ParseError),
    DataType(DTError),
    Other(String),
}

} // verus!
