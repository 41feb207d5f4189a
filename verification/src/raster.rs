//! RGB rasters and the deterministic decomposition of a resized image into
//! fixed-size 128x128 tiles.
use vstd::prelude::*;

verus! {

/// An RGB raster: `width * height` colors in row-major pixel order.
pub struct Raster {
    pub width: u32,
    pub height: u32,
    pub pixels: Vec<[u8; 3]>,
}

impl Raster {
    /// The pixel buffer holds exactly one color per coordinate.
    pub open spec fn wf(&self) -> bool {
        self.pixels@.len() == self.width * self.height
    }

    /// The color at column `x` of row `y`.
    pub open spec fn pixel_at(&self, x: int, y: int) -> [u8; 3] {
        self.pixels@[y * self.width + x]
    }
}

/// The tile holds exactly the 128x128 sub-rectangle of `img` whose top-left
/// corner sits at column `col * 128`, row `row * 128`.
pub open spec fn tile_matches(tile: Raster, img: Raster, col: int, row: int) -> bool {
    &&& tile.width == 128
    &&& tile.height == 128
    &&& tile.wf()
    &&& forall|px: int, py: int|
        0 <= px < 128 && 0 <= py < 128 ==> #[trigger] tile.pixel_at(px, py) == img.pixel_at(
            col * 128 + px,
            row * 128 + py,
        )
}

/// The tile at grid position (`col`, `row`) of the row-major tile sequence
/// matches the corresponding sub-rectangle of `img`.
pub open spec fn grid_tile_matches(
    tiles: Seq<Raster>,
    img: Raster,
    cols: int,
    col: int,
    row: int,
) -> bool {
    tile_matches(tiles[row * cols + col], img, col, row)
}

proof fn lemma_row_major_bound(x: int, y: int, w: int, h: int)
    by (nonlinear_arith)
    requires
        0 <= x < w,
        0 <= y < h,
    ensures
        0 <= y * w + x < h * w,
{
}

/// Relies on image::imageops::resize, reached through
/// DynamicImage::resize_exact with the Lanczos3 filter: a high-quality
/// interpolating resize to the exact target dimensions.  Only the geometry
/// of the result is assumed; the resampled colors are not specified.
#[verifier::external_body]
fn resize_rgb(width: u32, height: u32, pixels: &Vec<[u8; 3]>, nwidth: u32, nheight: u32) -> (r: Vec<
    [u8; 3],
>)
    requires
        pixels@.len() == width * height,
        width >= 1,
        height >= 1,
        nwidth >= 1,
        nheight >= 1,
        (nwidth as int) * (nheight as int) * 3 <= usize::MAX,
    ensures
        r@.len() == (nwidth as int) * (nheight as int),
{
    let flat: Vec<u8> = pixels.iter().flat_map(|p| p.iter().copied()).collect();
    let buf = image::RgbImage::from_raw(width, height, flat).unwrap();
    let resized = image::DynamicImage::ImageRgb8(buf)
        .resize_exact(nwidth, nheight, image::imageops::FilterType::Lanczos3)
        .into_rgb8();
    resized.as_raw().chunks(3).map(|ch| [ch[0], ch[1], ch[2]]).collect()
}

/// Partitions an exactly-sized image into `cols * rows` non-overlapping
/// 128x128 tiles, enumerated row-major: all columns of row 0, then row 1,
/// and so on.
pub fn split_tiles(img: &Raster, cols: u32, rows: u32) -> (tiles: Vec<Raster>)
    requires
        img.wf(),
        cols >= 1,
        rows >= 1,
        img.width == (cols as int) * 128,
        img.height == (rows as int) * 128,
    ensures
        tiles@.len() == (rows as int) * (cols as int),
        forall|row: int, col: int|
            0 <= row < rows && 0 <= col < cols ==> #[trigger] grid_tile_matches(
                tiles@,
                *img,
                cols as int,
                col,
                row,
            ),
{
    let mut tiles: Vec<Raster> = Vec::new();
    let mut ty: u32 = 0;
    while ty < rows
        invariant
            img.wf(),
            1 <= cols,
            1 <= rows,
            img.width == (cols as int) * 128,
            img.height == (rows as int) * 128,
            ty <= rows,
            tiles@.len() == (ty as int) * (cols as int),
            forall|row: int, col: int|
                0 <= row < ty && 0 <= col < cols ==> #[trigger] grid_tile_matches(
                    tiles@,
                    *img,
                    cols as int,
                    col,
                    row,
                ),
        decreases rows - ty,
    {
        let mut tx: u32 = 0;
        while tx < cols
            invariant
                img.wf(),
                1 <= cols,
                1 <= rows,
                img.width == (cols as int) * 128,
                img.height == (rows as int) * 128,
                ty < rows,
                tx <= cols,
                tiles@.len() == (ty as int) * (cols as int) + tx,
                forall|row: int, col: int|
                    0 <= row < ty && 0 <= col < cols ==> #[trigger] grid_tile_matches(
                        tiles@,
                        *img,
                        cols as int,
                        col,
                        row,
                    ),
                forall|col: int|
                    0 <= col < tx ==> #[trigger] grid_tile_matches(
                        tiles@,
                        *img,
                        cols as int,
                        col,
                        ty as int,
                    ),
            decreases cols - tx,
        {
            let tile = copy_tile(img, tx, ty, cols, rows);
            let ghost prev = tiles@;
            tiles.push(tile);
            proof {
                lemma_row_major_bound(tx as int, ty as int, cols as int, rows as int);
                assert forall|row: int, col: int|
                    0 <= row < ty && 0 <= col < cols implies #[trigger] grid_tile_matches(
                    tiles@,
                    *img,
                    cols as int,
                    col,
                    row,
                ) by {
                    lemma_row_major_bound(col, row, cols as int, ty as int);
                    assert(grid_tile_matches(prev, *img, cols as int, col, row));
                    assert(tiles@[row * (cols as int) + col] == prev[row * (cols as int) + col]);
                }
                assert forall|col: int|
                    0 <= col < tx + 1 implies #[trigger] grid_tile_matches(
                    tiles@,
                    *img,
                    cols as int,
                    col,
                    ty as int,
                ) by {
                    assert(0 <= (ty as int) * (cols as int)) by (nonlinear_arith)
                        requires
                            0 <= ty && 0 <= cols,
                    ;
                    if col < tx {
                        assert(grid_tile_matches(prev, *img, cols as int, col, ty as int));
                        assert(tiles@[(ty as int) * (cols as int) + col] == prev[(ty as int) * (
                        cols as int) + col]);
                    } else {
                        assert((ty as int) * (cols as int) + col == prev.len());
                        assert(tiles@[(ty as int) * (cols as int) + col] == tile);
                    }
                }
            }
            tx = tx + 1;
        }
        proof {
            assert((ty as int) * (cols as int) + cols == (ty as int + 1) * (cols as int))
                by (nonlinear_arith);
        }
        ty = ty + 1;
    }
    tiles
}

/// One pixel of a tile under construction matches its source pixel in `img`.
spec fn pix_matches(
    pix: Seq<[u8; 3]>,
    img: Raster,
    tx: int,
    ty: int,
    px: int,
    py: int,
) -> bool {
    pix[py * 128 + px] == img.pixel_at(tx * 128 + px, ty * 128 + py)
}

/// Copies the 128x128 sub-rectangle at grid position (`tx`, `ty`) out of
/// `img` into a fresh tile.
fn copy_tile(img: &Raster, tx: u32, ty: u32, cols: u32, rows: u32) -> (tile: Raster)
    requires
        img.wf(),
        tx < cols,
        ty < rows,
        img.width == (cols as int) * 128,
        img.height == (rows as int) * 128,
    ensures
        tile_matches(tile, *img, tx as int, ty as int),
{
    let mut pix: Vec<[u8; 3]> = Vec::new();
    let mut py: u32 = 0;
    while py < 128
        invariant
            img.wf(),
            tx < cols,
            ty < rows,
            img.width == (cols as int) * 128,
            img.height == (rows as int) * 128,
            py <= 128,
            pix@.len() == (py as int) * 128,
            forall|px2: int, py2: int|
                0 <= px2 < 128 && 0 <= py2 < py ==> #[trigger] pix_matches(
                    pix@,
                    *img,
                    tx as int,
                    ty as int,
                    px2,
                    py2,
                ),
        decreases 128 - py,
    {
        let mut px: u32 = 0;
        while px < 128
            invariant
                img.wf(),
                tx < cols,
                ty < rows,
                img.width == (cols as int) * 128,
                img.height == (rows as int) * 128,
                py < 128,
                px <= 128,
                pix@.len() == (py as int) * 128 + px,
                forall|px2: int, py2: int|
                    0 <= px2 < 128 && 0 <= py2 < py ==> #[trigger] pix_matches(
                        pix@,
                        *img,
                        tx as int,
                        ty as int,
                        px2,
                        py2,
                    ),
                forall|px2: int|
                    0 <= px2 < px ==> #[trigger] pix_matches(
                        pix@,
                        *img,
                        tx as int,
                        ty as int,
                        px2,
                        py as int,
                    ),
            decreases 128 - px,
        {
            proof {
                assert((tx as int) * 128 + px < (cols as int) * 128 && 0 <= (tx as int) * 128)
                    by (nonlinear_arith)
                    requires
                        tx < cols && px < 128 && 0 <= tx,
                ;
                assert((ty as int) * 128 + py < (rows as int) * 128 && 0 <= (ty as int) * 128)
                    by (nonlinear_arith)
                    requires
                        ty < rows && py < 128 && 0 <= ty,
                ;
                lemma_row_major_bound(
                    (tx as int) * 128 + px,
                    (ty as int) * 128 + py,
                    img.width as int,
                    img.height as int,
                );
                assert((img.height as int) * (img.width as int) == (img.width as int) * (
                img.height as int)) by (nonlinear_arith);
            }
            let total: usize = img.pixels.len();
            let sx: usize = (tx as usize) * 128 + (px as usize);
            let sy: usize = (ty as usize) * 128 + (py as usize);
            proof {
                assert((sy as int) * (img.width as int) + sx < total);
            }
            let idx: usize = sy * (img.width as usize) + sx;
            let ghost prevpix = pix@;
            pix.push(img.pixels[idx]);
            proof {
                assert(pix_matches(pix@, *img, tx as int, ty as int, px as int, py as int));
                assert forall|px2: int, py2: int|
                    0 <= px2 < 128 && 0 <= py2 < py implies #[trigger] pix_matches(
                    pix@,
                    *img,
                    tx as int,
                    ty as int,
                    px2,
                    py2,
                ) by {
                    lemma_row_major_bound(px2, py2, 128, py as int);
                    assert(pix_matches(prevpix, *img, tx as int, ty as int, px2, py2));
                    assert(pix@[py2 * 128 + px2] == prevpix[py2 * 128 + px2]);
                }
                assert forall|px2: int|
                    0 <= px2 < px + 1 implies #[trigger] pix_matches(
                    pix@,
                    *img,
                    tx as int,
                    ty as int,
                    px2,
                    py as int,
                ) by {
                    if px2 < px {
                        assert(pix_matches(prevpix, *img, tx as int, ty as int, px2, py as int));
                        assert(pix@[(py as int) * 128 + px2] == prevpix[(py as int) * 128 + px2]);
                    } else {
                        assert((py as int) * 128 + px2 == prevpix.len());
                    }
                }
            }
            px = px + 1;
        }
        py = py + 1;
    }
    let tile = Raster { width: 128, height: 128, pixels: pix };
    proof {
        assert forall|px2: int, py2: int|
            0 <= px2 < 128 && 0 <= py2 < 128 implies #[trigger] tile.pixel_at(px2, py2)
            == img.pixel_at((tx as int) * 128 + px2, (ty as int) * 128 + py2) by {
            assert(pix_matches(pix@, *img, tx as int, ty as int, px2, py2));
        }
    }
    tile
}

/// Resizes a source image to exactly `width * 128` by `height * 128` pixels
/// and cuts it into `width * height` 128x128 tiles in row-major order.
pub fn cut_into_maps(image: &Raster, width: u32, height: u32) -> (tiles: Vec<Raster>)
    requires
        image.wf(),
        image.width >= 1,
        image.height >= 1,
        width >= 1,
        height >= 1,
        (width as int) * 128 <= u32::MAX,
        (height as int) * 128 <= u32::MAX,
        (width as int) * 128 * ((height as int) * 128) * 3 <= usize::MAX,
    ensures
        tiles@.len() == (height as int) * (width as int),
        forall|t: int|
            0 <= t < tiles@.len() ==> {
                &&& (#[trigger] tiles@[t]).width == 128
                &&& tiles@[t].height == 128
                &&& tiles@[t].wf()
            },
{
    let nw = width * 128;
    let nh = height * 128;
    let resized_pixels = resize_rgb(image.width, image.height, &image.pixels, nw, nh);
    let resized = Raster { width: nw, height: nh, pixels: resized_pixels };
    let tiles = split_tiles(&resized, width, height);
    proof {
        assert forall|t: int| 0 <= t < tiles@.len() implies {
            &&& (#[trigger] tiles@[t]).width == 128
            &&& tiles@[t].height == 128
            &&& tiles@[t].wf()
        } by {
            vstd::arithmetic::div_mod::lemma_fundamental_div_mod(t, width as int);
            vstd::arithmetic::div_mod::lemma_mod_division_less_than_divisor(t, width as int);
            vstd::arithmetic::div_mod::lemma_div_pos_is_pos(t, width as int);
            assert((height as int) * (width as int) == (width as int) * (height as int))
                by (nonlinear_arith);
            vstd::arithmetic::div_mod::lemma_multiply_divide_lt(t, width as int, height as int);
            let row = t / (width as int);
            let col = t % (width as int);
            assert(row * (width as int) == (width as int) * row) by (nonlinear_arith);
            assert(row * (width as int) + col == t);
            assert(grid_tile_matches(tiles@, resized, width as int, col, row));
        }
    }
    tiles
}

} // verus!
