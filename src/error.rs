//! Errors of the backing store, as the loader reports them.

use vstd::prelude::*;
use crate::path::H5Path;

verus! {

/// A failed lookup in the backing store.
#[derive(Clone, Debug, PartialEq, Eq)]
pub enum H5Error {
    /// No object at this path.
    NotFound(H5Path),
    /// Any other failure, with its message.
    Other(String),
}

impl H5Error {
    /// The message that describes the error.
    pub fn message(&self) -> (r: String)
        ensures
            r@ == match self {
                H5Error::NotFound(path) => "Not found: '"@ + path@ + "'"@,
                H5Error::Other(msg) => "HDF5 error: '"@ + msg@ + "'"@,
            },
    {
        match self {
            H5Error::NotFound(path) => {
                let mut r = String::new();
                r.append("Not found: '");
                r.append(path.as_raw());
                r.append("'");
                r
            },
            H5Error::Other(msg) => {
                let mut r = String::new();
                r.append("HDF5 error: '");
                r.append(msg.as_str());
                r.append("'");
                r
            },
        }
    }
}

} // verus!
