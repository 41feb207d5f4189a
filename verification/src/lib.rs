//! Conversion of raster images into fixed-size, fixed-palette map artifacts.
//!
//! The crate builds a derived color palette from base colors and brightness
//! multipliers, finds nearest palette entries under a perceptual distance
//! metric, slices resized images into 128x128 tiles in a deterministic
//! row-major order, and allocates contiguous blocks of artifact ids from a
//! persistent counter record.
use vstd::prelude::*;

use crate::palette::lemma_nearest_idx_props;
use crate::palette::nearest_idx;
use crate::palette::MapPalette;
use crate::raster::cut_into_maps;
use crate::raster::Raster;
use crate::structs::MapData;
use crate::structs::MapRecord;

pub mod config;
pub mod id_count;
pub mod id_counts;
pub mod map;
pub mod palette;
pub mod raster;
pub mod structs;

verus! {

/// Squared difference of two integers, the building block of the
/// perceptual color distance.
pub open spec fn sq_diff(x: int, y: int) -> int {
    (x - y) * (x - y)
}

/// Perceptual distance between two RGB colors: the red and blue squared
/// differences are weighted by a factor derived from the mean red level
/// `m = (a.r + b.r) / 2`, and the green squared difference is weighted 4x.
pub open spec fn color_dist(a: [u8; 3], b: [u8; 3]) -> int {
    let m = (a[0] + b[0]) / 2;
    ((512 + m) * sq_diff(a[0] as int, b[0] as int)) / 256
        + 4 * sq_diff(a[1] as int, b[1] as int)
        + ((767 - m) * sq_diff(a[2] as int, b[2] as int)) / 256
}

proof fn lemma_sq_diff_props(x: int, y: int)
    ensures
        sq_diff(x, y) >= 0,
        sq_diff(x, y) == sq_diff(y, x),
        x == y ==> sq_diff(x, y) == 0,
        x != y ==> sq_diff(x, y) >= 1,
{
    assert((x - y) * (x - y) >= 0) by (nonlinear_arith);
    assert((x - y) * (x - y) == (y - x) * (y - x)) by (nonlinear_arith);
    assert(x != y ==> (x - y) * (x - y) >= 1) by (nonlinear_arith);
    assert(x == y ==> (x - y) * (x - y) == 0) by (nonlinear_arith);
}

proof fn lemma_weighted_zero(w: int, s: int)
    ensures
        s == 0 ==> w * s == 0,
{
    assert(s == 0 ==> w * s == 0) by (nonlinear_arith);
}

/// A trait for calculating distance between colors.
pub trait ColorDistance {
    /// The mathematical value that `dist` returns.
    spec fn dist_spec(&self, other: &Self) -> int;

    /// Calculates the distance between two colors.
    fn dist(&self, other: &Self) -> (r: isize)
        ensures
            r == self.dist_spec(other),
    ;
}

impl ColorDistance for [u8; 3] {
    open spec fn dist_spec(&self, other: &Self) -> int {
        color_dist(*self, *other)
    }

    fn dist(&self, other: &Self) -> (r: isize)
        ensures
            r == color_dist(*self, *other),
    {
        let a0 = self[0] as u32;
        let a1 = self[1] as u32;
        let a2 = self[2] as u32;
        let b0 = other[0] as u32;
        let b1 = other[1] as u32;
        let b2 = other[2] as u32;
        let m = (a0 + b0) / 2;
        let dr = if a0 >= b0 { a0 - b0 } else { b0 - a0 };
        let dg = if a1 >= b1 { a1 - b1 } else { b1 - a1 };
        let db = if a2 >= b2 { a2 - b2 } else { b2 - a2 };
        proof {
            assert(dr * dr == (a0 - b0) * (a0 - b0) && dr * dr <= 65025) by (nonlinear_arith)
                requires
                    dr <= 255 && (dr == a0 - b0 || dr == b0 - a0),
            ;
            assert(dg * dg == (a1 - b1) * (a1 - b1) && dg * dg <= 65025) by (nonlinear_arith)
                requires
                    dg <= 255 && (dg == a1 - b1 || dg == b1 - a1),
            ;
            assert(db * db == (a2 - b2) * (a2 - b2) && db * db <= 65025) by (nonlinear_arith)
                requires
                    db <= 255 && (db == a2 - b2 || db == b2 - a2),
            ;
            assert((512 + m) * (dr * dr) <= 767 * 65025 && (512 + m) * (dr * dr) >= 0)
                by (nonlinear_arith)
                requires
                    0 <= m <= 255 && 0 <= dr * dr <= 65025,
            ;
            assert((767 - m) * (db * db) <= 767 * 65025 && (767 - m) * (db * db) >= 0)
                by (nonlinear_arith)
                requires
                    0 <= m <= 255 && 0 <= db * db <= 65025,
            ;
        }
        let term_r = ((512 + m) * (dr * dr)) / 256;
        let term_g = 4 * (dg * dg);
        let term_b = ((767 - m) * (db * db)) / 256;
        (term_r + term_g + term_b) as isize
    }
}

/// The distance metric is symmetric.
pub proof fn lemma_dist_symmetric(a: [u8; 3], b: [u8; 3])
    ensures
        color_dist(a, b) == color_dist(b, a),
{
    lemma_sq_diff_props(a[0] as int, b[0] as int);
    lemma_sq_diff_props(a[1] as int, b[1] as int);
    lemma_sq_diff_props(a[2] as int, b[2] as int);
}

/// The distance from a color to itself is zero.
pub proof fn lemma_dist_self_zero(a: [u8; 3])
    ensures
        color_dist(a, a) == 0,
{
    lemma_sq_diff_props(a[0] as int, a[0] as int);
    lemma_sq_diff_props(a[1] as int, a[1] as int);
    lemma_sq_diff_props(a[2] as int, a[2] as int);
    let m: int = (a[0] + a[0]) / 2;
    lemma_weighted_zero(512 + m, sq_diff(a[0] as int, a[0] as int));
    lemma_weighted_zero(767 - m, sq_diff(a[2] as int, a[2] as int));
}

/// The distance metric is non-negative, and zero exactly on equal colors.
pub proof fn lemma_dist_zero_iff_eq(a: [u8; 3], b: [u8; 3])
    ensures
        color_dist(a, b) >= 0,
        color_dist(a, b) == 0 <==> a == b,
{
    broadcast use vstd::array::group_array_axioms;

    let m: int = (a[0] + b[0]) / 2;
    let sr = sq_diff(a[0] as int, b[0] as int);
    let sg = sq_diff(a[1] as int, b[1] as int);
    let sb = sq_diff(a[2] as int, b[2] as int);
    lemma_sq_diff_props(a[0] as int, b[0] as int);
    lemma_sq_diff_props(a[1] as int, b[1] as int);
    lemma_sq_diff_props(a[2] as int, b[2] as int);
    assert((512 + m) * sr >= 0 && (767 - m) * sb >= 0) by (nonlinear_arith)
        requires
            0 <= m <= 255 && sr >= 0 && sb >= 0,
    ;
    vstd::arithmetic::div_mod::lemma_div_is_ordered(0, (512 + m) * sr, 256);
    vstd::arithmetic::div_mod::lemma_div_is_ordered(0, (767 - m) * sb, 256);
    if a == b {
        lemma_weighted_zero(512 + m, sr);
        lemma_weighted_zero(767 - m, sb);
        assert(color_dist(a, b) == 0);
    } else {
        if a[0] == b[0] && a[1] == b[1] && a[2] == b[2] {
            assert(a =~= b);
        }
        assert(a[0] != b[0] || a[1] != b[1] || a[2] != b[2]);
        if a[0] != b[0] {
            assert((512 + m) * sr >= 512) by (nonlinear_arith)
                requires
                    0 <= m && sr >= 1,
            ;
            vstd::arithmetic::div_mod::lemma_div_is_ordered(512, (512 + m) * sr, 256);
            assert(((512 + m) * sr) / 256 >= 2);
        } else if a[1] != b[1] {
            assert(sg >= 1);
        } else {
            assert((767 - m) * sb >= 512) by (nonlinear_arith)
                requires
                    m <= 255 && sb >= 1,
            ;
            vstd::arithmetic::div_mod::lemma_div_is_ordered(512, (767 - m) * sb, 256);
            assert(((767 - m) * sb) / 256 >= 2);
        }
    }
}

/// The signed byte that encodes palette index `idx` in an artifact's color
/// buffer: the low eight bits of the index, reinterpreted as two's
/// complement.
pub open spec fn to_map_index(idx: int) -> i8 {
    let m = idx % 256;
    if m < 128 {
        m as i8
    } else {
        (m - 256) as i8
    }
}

fn encode_index(idx: usize) -> (r: i8)
    ensures
        r == to_map_index(idx as int),
{
    let b: u8 = (idx % 256) as u8;
    if b < 128 {
        b as i8
    } else {
        ((b as i16) - 256) as i8
    }
}

/// Replaces every pixel by the signed-byte index of its nearest palette
/// entry (margin included), in the same row-major pixel order.
pub fn index_colors(image: &Raster, palette: &MapPalette) -> (r: Vec<i8>)
    requires
        palette.wf(),
        palette.colors().len() > 0,
    ensures
        r@.len() == image.pixels@.len(),
        forall|k: int|
            0 <= k < r@.len() ==> r@[k] == to_map_index(
                nearest_idx(palette.colors(), image.pixels@[k]) + palette.margin(),
            ),
{
    let ghost cs = palette.colors();
    let mut out: Vec<i8> = Vec::new();
    let mut k: usize = 0;
    while k < image.pixels.len()
        invariant
            palette.wf(),
            cs == palette.colors(),
            cs.len() > 0,
            k <= image.pixels@.len(),
            out@.len() == k,
            forall|k2: int|
                0 <= k2 < k ==> out@[k2] == to_map_index(
                    nearest_idx(cs, image.pixels@[k2]) + palette.margin(),
                ),
        decreases image.pixels@.len() - k,
    {
        let mut c = image.pixels[k];
        let ghost orig = c;
        palette.map_color(&mut c);
        proof {
            lemma_nearest_idx_props(cs, orig);
        }
        let idx = palette.index_of(&c);
        proof {
            let ni = nearest_idx(cs, orig);
            assert(cs[ni] == c);
            let fi = idx - palette.margin();
            if fi < ni {
                assert(cs[fi] != cs[ni]);
            }
            if fi > ni {
                assert(cs[ni] != c);
            }
            assert(fi == ni);
        }
        let v = encode_index(idx);
        out.push(v);
        k = k + 1;
    }
    out
}

/// The ids assigned to one batch: `count` consecutive ids starting at
/// `first`, in tile enumeration order.
pub fn assign_ids(first: i32, count: usize) -> (ids: Vec<i32>)
    requires
        count <= i32::MAX,
        first + count <= i32::MAX,
    ensures
        ids@.len() == count,
        forall|k: int| 0 <= k < count ==> ids@[k] == first + k,
{
    let mut ids: Vec<i32> = Vec::new();
    let mut k: usize = 0;
    while k < count
        invariant
            k <= count,
            count <= i32::MAX,
            first + count <= i32::MAX,
            ids@.len() == k,
            forall|k2: int| 0 <= k2 < k ==> ids@[k2] == first + k2,
        decreases count - k,
    {
        ids.push(first + (k as i32));
        k = k + 1;
    }
    ids
}

/// A reserved block of ids never collides with itself: ids assigned by
/// position are pairwise distinct and exactly fill `[first, first + count)`.
pub proof fn lemma_id_block_unique(ids: Seq<i32>, first: int, count: int)
    requires
        ids.len() == count,
        forall|k: int| 0 <= k < count ==> ids[k] == first + k,
    ensures
        forall|k1: int, k2: int|
            0 <= k1 < count && 0 <= k2 < count && k1 != k2 ==> ids[k1] != ids[k2],
        forall|k: int| 0 <= k < count ==> first <= #[trigger] ids[k] < first + count,
{
}

/// Converts a batch of source images into artifact records: each image is
/// resized and cut into `height * width` tiles in row-major order, each
/// tile is quantized against the palette, and one record per tile is
/// assembled, in deterministic tile enumeration order.
pub fn convert_rasters(
    images: &Vec<Raster>,
    width: u32,
    height: u32,
    palette: &MapPalette,
    data_version: i32,
) -> (maps: Vec<MapRecord>)
    requires
        palette.wf(),
        palette.colors().len() > 0,
        width >= 1,
        height >= 1,
        (width as int) * 128 <= u32::MAX,
        (height as int) * 128 <= u32::MAX,
        (width as int) * 128 * ((height as int) * 128) * 3 <= usize::MAX,
        forall|i: int|
            0 <= i < images@.len() ==> (#[trigger] images@[i]).wf() && images@[i].width >= 1
                && images@[i].height >= 1,
    ensures
        maps@.len() == images@.len() * ((height as int) * (width as int)),
        forall|k: int|
            0 <= k < maps@.len() ==> {
                &&& (#[trigger] maps@[k]).data_version == data_version
                &&& maps@[k].data.scale == 0
                &&& maps@[k].data.locked == 1
                &&& maps@[k].data.dimension@ == "minecraft:overworld"@
                &&& maps@[k].data.colors@.len() == 16384
            },
{
    let ghost per = (height as int) * (width as int);
    let mut maps: Vec<MapRecord> = Vec::new();
    let mut i: usize = 0;
    while i < images.len()
        invariant
            palette.wf(),
            palette.colors().len() > 0,
            width >= 1,
            height >= 1,
            (width as int) * 128 <= u32::MAX,
            (height as int) * 128 <= u32::MAX,
            (width as int) * 128 * ((height as int) * 128) * 3 <= usize::MAX,
            forall|i2: int|
                0 <= i2 < images@.len() ==> (#[trigger] images@[i2]).wf() && images@[i2].width >= 1
                    && images@[i2].height >= 1,
            per == (height as int) * (width as int),
            i <= images@.len(),
            maps@.len() == i * per,
            forall|k: int|
                0 <= k < maps@.len() ==> {
                    &&& (#[trigger] maps@[k]).data_version == data_version
                    &&& maps@[k].data.scale == 0
                    &&& maps@[k].data.locked == 1
                    &&& maps@[k].data.dimension@ == "minecraft:overworld"@
                    &&& maps@[k].data.colors@.len() == 16384
                },
        decreases images@.len() - i,
    {
        let tiles = cut_into_maps(&images[i], width, height);
        let mut t: usize = 0;
        while t < tiles.len()
            invariant
                palette.wf(),
                palette.colors().len() > 0,
                per == (height as int) * (width as int),
                tiles@.len() == per,
                forall|t2: int|
                    0 <= t2 < tiles@.len() ==> (#[trigger] tiles@[t2]).width == 128
                        && tiles@[t2].height == 128 && tiles@[t2].wf(),
                t <= tiles@.len(),
                maps@.len() == i * per + t,
                forall|k: int|
                    0 <= k < maps@.len() ==> {
                        &&& (#[trigger] maps@[k]).data_version == data_version
                        &&& maps@[k].data.scale == 0
                        &&& maps@[k].data.locked == 1
                        &&& maps@[k].data.dimension@ == "minecraft:overworld"@
                        &&& maps@[k].data.colors@.len() == 16384
                    },
            decreases tiles@.len() - t,
        {
            let buf = index_colors(&tiles[t], palette);
            proof {
                assert(buf@.len() == 16384);
            }
            let data = MapData::from(buf);
            maps.push(MapRecord::new(data_version, data));
            t = t + 1;
        }
        proof {
            assert(i * per + per == (i + 1) * per) by (nonlinear_arith);
        }
        i = i + 1;
    }
    maps
}

} // verus!
