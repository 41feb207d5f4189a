//! The configuration values the palette builder consumes.
use vstd::prelude::*;

verus! {

/// The parsed configuration: the target data-format version, the brightness
/// multipliers, and the base colors the palette is derived from.
pub struct Config {
    pub data_version: i32,
    pub multipliers: Vec<u8>,
    pub colors: Vec<[u8; 3]>,
}

} // verus!
