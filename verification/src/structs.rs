//! The persisted record types: the id counter file and the per-artifact map
//! file, together with id-block reservation.
use vstd::prelude::*;

verus! {

/// Structure for representing the `idcounts.dat` file.
#[derive(Clone, Debug, PartialEq)]
pub struct IdCounts {
    pub data: IdCountsData,
    pub data_version: i32,
}

/// Structure for the data within IdCounts.
#[derive(Clone, Debug, PartialEq)]
pub struct IdCountsData {
    pub map: i32,
}

impl IdCounts {
    /// A fresh counter whose next free id is `map`.
    pub fn new(data_version: i32, map: i32) -> (r: Self)
        ensures
            r.data_version == data_version,
            r.data.map == map,
    {
        IdCounts { data_version, data: IdCountsData { map } }
    }

    /// The counter that a batch runs against: the loaded record when the
    /// persisted file could be read and decoded, else a fresh counter seeded
    /// with the caller-supplied fallback id.
    pub fn recover(loaded: Option<IdCounts>, data_version: i32, fallback_first: i32) -> (r: Self)
        ensures
            loaded matches Some(c) ==> r == c,
            loaded is None ==> r.data_version == data_version && r.data.map == fallback_first,
    {
        match loaded {
            Some(c) => c,
            None => IdCounts::new(data_version, fallback_first),
        }
    }

    /// Reserves a contiguous block of `count` ids: returns the first id of
    /// the block and advances the next free id past the block.  Pure state
    /// arithmetic; persisting the advanced counter is the caller's business.
    pub fn reserve(&mut self, count: u32) -> (first: i32)
        requires
            count <= i32::MAX,
            old(self).data.map + count <= i32::MAX,
        ensures
            first == old(self).data.map,
            final(self).data.map == old(self).data.map + count,
            final(self).data_version == old(self).data_version,
    {
        let first = self.data.map;
        self.data.map = self.data.map + count as i32;
        first
    }
}

/// Structure for representing a `map_*.dat` file.
#[derive(Clone, Debug, PartialEq)]
pub struct MapRecord {
    pub data: MapData,
    pub data_version: i32,
}

impl MapRecord {
    pub fn new(data_version: i32, data: MapData) -> (r: Self)
        ensures
            r.data_version == data_version,
            r.data == data,
    {
        MapRecord { data_version, data }
    }
}

/// Structure for the data within a MapRecord.
#[derive(Clone, Debug, PartialEq)]
pub struct MapData {
    pub scale: i8,
    pub dimension: String,
    pub tracking_position: i8,
    pub unlimited_tracking: i8,
    pub locked: i8,
    pub x_center: i32,
    pub z_center: i32,
    pub banners: Vec<Banner>,
    pub frames: Vec<Frame>,
    pub colors: Vec<i8>,
}

impl MapData {
    /// The artifact payload for one quantized tile: a locked overworld map
    /// with default position data and the given palette-index buffer.
    pub fn from(colors: Vec<i8>) -> (r: Self)
        ensures
            r.scale == 0,
            r.dimension@ == "minecraft:overworld"@,
            r.tracking_position == 0,
            r.unlimited_tracking == 0,
            r.locked == 1,
            r.x_center == 0,
            r.z_center == 0,
            r.banners@.len() == 0,
            r.frames@.len() == 0,
            r.colors@ == colors@,
    {
        MapData {
            scale: 0,
            dimension: "minecraft:overworld".to_owned(),
            tracking_position: 0,
            unlimited_tracking: 0,
            locked: 1,
            x_center: 0,
            z_center: 0,
            banners: Vec::new(),
            frames: Vec::new(),
            colors,
        }
    }
}

/// Structure for representing a banner.
#[derive(Clone, Debug, PartialEq)]
pub struct Banner {
    pub color: String,
    pub name: String,
    pub pos: Pos,
}

/// Structure for representing a frame.
#[derive(Clone, Debug, PartialEq)]
pub struct Frame {
    pub entity_id: i32,
    pub rotation: i32,
    pub pos: Pos,
}

/// Structure representing a position on a map.
#[derive(Clone, Debug, PartialEq)]
pub struct Pos {
    pub x: i32,
    pub y: i32,
    pub z: i32,
}

} // verus!
