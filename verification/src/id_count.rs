//! A single-map variant of the persisted id counter record.
use vstd::prelude::*;

verus! {

/// This represents the `idcount.dat` file.
#[derive(Clone, Debug, PartialEq)]
pub struct IdCount {
    pub data_version: i32,
    pub data: Data,
}

/// This represents the root compound of `IdCount`.
#[derive(Clone, Debug, PartialEq)]
pub struct Data {
    pub map: i32,
}

impl Data {
    pub fn from(map: i32) -> (r: Self)
        ensures
            r.map == map,
    {
        Data { map }
    }
}

} // verus!
