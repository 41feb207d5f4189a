use jmfm::raster::cut_into_maps;
use jmfm::raster::split_tiles;
use jmfm::raster::Raster;

/// A raster whose pixel at (x, y) encodes its coordinates, so that tile
/// contents identify their source rectangle.
fn coordinate_raster(width: u32, height: u32) -> Raster {
    let mut pixels: Vec<[u8; 3]> = Vec::new();
    for y in 0..height {
        for x in 0..width {
            pixels.push([(x % 251) as u8, (y % 251) as u8, ((x + y) % 251) as u8]);
        }
    }
    Raster { width, height, pixels }
}

#[test]
fn cut_produces_six_tiles_of_128_by_128() {
    let img = coordinate_raster(100, 50);
    let tiles = cut_into_maps(&img, 2, 3);
    assert_eq!(tiles.len(), 6);
    for tile in &tiles {
        assert_eq!(tile.width, 128);
        assert_eq!(tile.height, 128);
        assert_eq!(tile.pixels.len(), 128 * 128);
    }
}

#[test]
fn split_enumerates_tiles_row_major() {
    let img = coordinate_raster(256, 384);
    let tiles = split_tiles(&img, 2, 3);
    assert_eq!(tiles.len(), 6);
    // tile 1 is row 0, column 1: its top-left pixel sits at (128, 0).
    assert_eq!(tiles[1].pixels[0], img.pixels[128]);
    // tile 2 is row 1, column 0: its top-left pixel sits at (0, 128).
    assert_eq!(tiles[2].pixels[0], img.pixels[128 * 256]);
    // tile 5 is row 2, column 1.
    assert_eq!(tiles[5].pixels[0], img.pixels[256 * 256 + 128]);
}

#[test]
fn split_copies_whole_sub_rectangles() {
    let img = coordinate_raster(256, 256);
    let tiles = split_tiles(&img, 2, 2);
    assert_eq!(tiles.len(), 4);
    for row in 0..2u32 {
        for col in 0..2u32 {
            let tile = &tiles[(row * 2 + col) as usize];
            for py in 0..128u32 {
                for px in 0..128u32 {
                    let sx = col * 128 + px;
                    let sy = row * 128 + py;
                    assert_eq!(
                        tile.pixels[(py * 128 + px) as usize],
                        img.pixels[(sy * 256 + sx) as usize]
                    );
                }
            }
        }
    }
}

#[test]
fn cut_resizes_to_exact_tile_multiple() {
    let img = coordinate_raster(300, 40);
    let tiles = cut_into_maps(&img, 1, 1);
    assert_eq!(tiles.len(), 1);
    assert_eq!(tiles[0].pixels.len(), 128 * 128);
}
