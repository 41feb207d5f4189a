//! The bare shape of the persisted id counter record.
use vstd::prelude::*;

verus! {

/// This represents the `idcounts.dat` file.
#[derive(Clone, Debug, PartialEq)]
pub struct IdCounts {
    pub data_version: i32,
    pub data: Data,
}

/// This represents the root compound of `IdCounts`.
#[derive(Clone, Debug, PartialEq)]
pub struct Data {
    pub map: i32,
}

} // verus!
