use dice_mosaic::error::MosaicError;
use dice_mosaic::grid::{Canvas, PixelGrid, Tile};
use dice_mosaic::mosaic::{DiceMosaic, Resolution, TilePalette};

fn palette_of_side(side: u32) -> TilePalette {
    let mut tiles: Vec<Tile> = Vec::new();
    for i in 0..6u32 {
        tiles.push(Tile::uniform(side, 1000 + i));
    }
    TilePalette::new(tiles, side).expect("all tiles have the right size")
}

#[test]
fn scenario_a_black_source() {
    // 100x100 pure-black source, tile_px = 10, low resolution (factor 3):
    // inflated 300x300, already a multiple of 10, grid 30x30 = 900 cells,
    // every cell maps to the darkest face 5.
    let img = PixelGrid::uniform(100, 100, 0);
    let mut dm = DiceMosaic::new(img, 10, Resolution::Low).expect("plan is not degenerate");
    assert_eq!(dm.dimensions(), (300, 300));
    assert_eq!(dm.grid_size(), (30, 30));
    let palette = palette_of_side(10);
    let canvas = dm.process(&palette);
    assert_eq!(canvas.width(), 300);
    assert_eq!(canvas.height(), 300);
    let pairs = dm.stats();
    assert_eq!(pairs.len(), 6);
    for (face, count) in &pairs {
        if *face == 5 {
            assert_eq!(*count, 900);
        } else {
            assert_eq!(*count, 0);
        }
    }
    assert_eq!(dm.total_dice(), 900);
    // every canvas pixel comes from face 5's tile
    assert_eq!(canvas.pixel(0, 0), 1005);
    assert_eq!(canvas.pixel(299, 299), 1005);
    assert_eq!(canvas.pixel(150, 7), 1005);
}

#[test]
fn scenario_b_trimmed_canvas() {
    // 12x12 source, tile_px = 10, medium resolution (factor 4): inflated
    // 48x48, trimmed to 40x40, grid 4x4 = 16 cells.
    let img = PixelGrid::uniform(12, 12, 128);
    let mut dm = DiceMosaic::new(img, 10, Resolution::Medium).expect("plan is not degenerate");
    assert_eq!(dm.dimensions(), (40, 40));
    assert_eq!(dm.grid_size(), (4, 4));
    assert_eq!(dm.cell_size(), (3, 3));
    let palette = palette_of_side(10);
    let canvas = dm.process(&palette);
    assert_eq!(canvas.width(), 40);
    assert_eq!(canvas.height(), 40);
    assert_eq!(dm.total_dice(), 16);
}

#[test]
fn scenario_c_source_too_small() {
    // A 1x1 source at factor 3 cannot cover one 10-pixel tile.
    let img = PixelGrid::uniform(1, 1, 0);
    let r = DiceMosaic::new(img, 10, Resolution::Low);
    assert!(matches!(r, Err(MosaicError::ConfigurationError)));
}

#[test]
fn scenario_d_missized_tile() {
    // A tile decoded at the wrong size is refused when the palette is
    // sealed, before any cell processing can begin.
    let mut tiles: Vec<Tile> = Vec::new();
    for i in 0..6u32 {
        let side = if i == 2 { 9 } else { 10 };
        tiles.push(Tile::uniform(side, i));
    }
    let r = TilePalette::new(tiles, 10);
    assert_eq!(r.err(), Some(MosaicError::AssetError { index: 2 }));
}

#[test]
fn canvas_dimensions_are_tile_multiples() {
    // 37x23 source, tile_px = 10, high resolution (factor 5): inflated
    // 185x115, trimmed to 180x110 — both exact tile multiples.
    let img = PixelGrid::uniform(37, 23, 200);
    let dm = DiceMosaic::new(img, 10, Resolution::High).expect("plan is not degenerate");
    let (cw, ch) = dm.dimensions();
    assert_eq!(cw % 10, 0);
    assert_eq!(ch % 10, 0);
    assert_eq!((cw, ch), (180, 110));
    assert_eq!(dm.grid_size(), (18, 11));
}

#[test]
fn tally_total_equals_cell_count() {
    // On a varied source the tally still counts every cell exactly once.
    let mut data: Vec<u8> = Vec::new();
    for y in 0..20u32 {
        for x in 0..20u32 {
            data.push(((x * 13 + y * 7) % 256) as u8);
        }
    }
    let img = PixelGrid::new(20, 20, data);
    let mut dm = DiceMosaic::new(img, 4, Resolution::Low).expect("plan is not degenerate");
    let (gw, gh) = dm.grid_size();
    assert_eq!((gw, gh), (15, 15));
    let palette = palette_of_side(4);
    let _canvas = dm.process(&palette);
    assert_eq!(dm.total_dice(), (gw as u64) * (gh as u64));
    let mut sum: u64 = 0;
    for (_, count) in dm.stats() {
        sum += count as u64;
    }
    assert_eq!(sum, 225);
}

#[test]
fn uniform_source_yields_one_face() {
    // Determinism: a uniform-intensity source picks the same face for every
    // cell. Intensity 77 lies in the second band, face 4.
    let img = PixelGrid::uniform(20, 20, 77);
    let mut dm = DiceMosaic::new(img, 5, Resolution::Medium).expect("plan is not degenerate");
    assert_eq!(dm.dimensions(), (80, 80));
    assert_eq!(dm.grid_size(), (16, 16));
    let palette = palette_of_side(5);
    let canvas = dm.process(&palette);
    for (face, count) in dm.stats() {
        if face == 4 {
            assert_eq!(count, 256);
        } else {
            assert_eq!(count, 0);
        }
    }
    // spot-check cells across the canvas: all show face 4's tile
    assert_eq!(canvas.pixel(0, 0), 1004);
    assert_eq!(canvas.pixel(42, 3), 1004);
    assert_eq!(canvas.pixel(79, 79), 1004);
}

#[test]
fn blit_rejects_missized_tile() {
    let mut canvas = Canvas::new(20, 20);
    let tile = Tile::uniform(5, 9);
    let r = canvas.blit(&tile, 10, 0, 0);
    assert_eq!(r, Err(MosaicError::CompositeError));
    // the canvas is untouched
    assert_eq!(canvas.pixel(0, 0), 0);
    assert_eq!(canvas.pixel(4, 4), 0);
}

#[test]
fn blit_copies_tile_and_preserves_rest() {
    let mut canvas = Canvas::new(20, 20);
    let tile = Tile::uniform(10, 7);
    let r = canvas.blit(&tile, 10, 10, 10);
    assert_eq!(r, Ok(()));
    assert_eq!(canvas.pixel(10, 10), 7);
    assert_eq!(canvas.pixel(19, 19), 7);
    assert_eq!(canvas.pixel(9, 10), 0);
    assert_eq!(canvas.pixel(10, 9), 0);
    assert_eq!(canvas.pixel(0, 0), 0);
}

#[test]
fn error_messages_name_the_stage() {
    assert_eq!(
        MosaicError::ConfigurationError.message(),
        "source too small for one tile"
    );
    assert_eq!(MosaicError::LoadError.message(), "failed to read the source image");
    assert_eq!(
        MosaicError::AssetError { index: 3 }.message(),
        "missing or mis-sized tile asset"
    );
    assert_eq!(
        MosaicError::CompositeError.message(),
        "tile does not match the cell size"
    );
    assert_eq!(MosaicError::SaveError.message(), "failed to write the output image");
}
