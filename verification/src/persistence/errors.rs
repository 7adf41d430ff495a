//! The I/O error shared by the persistence readers and writers.
use vstd::prelude::*;

verus! {

/// `std::io::Error`, carried through unchanged.
#[verifier::external_type_specification]
#[verifier::external_body]
pub struct ExIoError(std::io::Error);

/// An I/O failure while opening, reading or writing a persistence file.
#[derive(Debug)]
pub struct PersistenceIoError {
    pub path: String,
    pub operation: &'static str,
    pub source: std::io::Error,
}

impl PersistenceIoError {
    pub fn new(path: &str, operation: &'static str, source: std::io::Error) -> (r: Self)
        ensures
            r.path@ == path@,
            r.operation == operation,
            r.source == source,
    {
        PersistenceIoError { path: path.to_owned(), operation, source }
    }
}

} // verus!
