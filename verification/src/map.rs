//! A self-contained map-entry record shape, kept beside the main record
//! types for consumers that only need the entry itself.
use vstd::prelude::*;

verus! {

/// One persisted map entry: a format version and its payload.
#[derive(Clone, Debug, PartialEq)]
pub struct MapEntry {
    data_version: i32,
    data: Data,
}

/// The payload of a map entry.
#[derive(Clone, Debug, PartialEq)]
pub struct Data {
    scale: i8,
    dimension: String,
    tracking_position: i8,
    unlimited_tracking: i8,
    locked: i8,
    x_center: i32,
    z_center: i32,
    banners: Vec<Banner>,
    colors: Vec<i8>,
}

/// A banner marker on a map.
#[derive(Clone, Debug, PartialEq)]
pub struct Banner {
    color: String,
    name: String,
    pos: Pos,
}

/// An item frame holding a map.
#[derive(Clone, Debug, PartialEq)]
pub struct Frame {
    entity_id: i32,
    rotation: i32,
    pos: Pos,
}

/// A position in the world.
#[derive(Clone, Debug, PartialEq)]
pub struct Pos {
    x: i32,
    y: i32,
    z: i32,
}

impl MapEntry {
    /// The format version of the entry.
    pub closed spec fn spec_data_version(&self) -> i32 {
        self.data_version
    }

    /// The payload of the entry.
    pub closed spec fn spec_data(&self) -> Data {
        self.data
    }

    pub fn new(data_version: i32, data: Data) -> (r: Self)
        ensures
            r.spec_data_version() == data_version,
            r.spec_data() == data,
    {
        MapEntry { data_version, data }
    }
}

impl Data {
    /// The palette-index buffer of the payload.
    pub closed spec fn spec_colors(&self) -> Seq<i8> {
        self.colors@
    }

    /// Whether the map is locked against in-game repainting.
    pub closed spec fn spec_locked(&self) -> i8 {
        self.locked
    }

    /// The dimension tag of the payload.
    pub closed spec fn spec_dimension(&self) -> Seq<char> {
        self.dimension@
    }

    /// The payload for one quantized tile: a locked overworld map with
    /// default position data and the given palette-index buffer.
    pub fn from(value: Vec<i8>) -> (r: Self)
        ensures
            r.spec_colors() == value@,
            r.spec_locked() == 1,
            r.spec_dimension() == "minecraft:overworld"@,
    {
        Data {
            scale: 0,
            dimension: "minecraft:overworld".to_owned(),
            tracking_position: 0,
            unlimited_tracking: 0,
            locked: 1,
            x_center: 0,
            z_center: 0,
            banners: Vec::new(),
            colors: value,
        }
    }
}

} // verus!
