use dice_mosaic::grid::PixelGrid;
use dice_mosaic::sample::avg_value;

#[test]
fn avg_of_whole_row() {
    let g = PixelGrid::new(4, 1, vec![0, 10, 20, 30]);
    assert_eq!(avg_value(&g, (0, 0), (4, 1)), 15);
}

#[test]
fn avg_truncates_toward_zero() {
    let g = PixelGrid::new(3, 1, vec![0, 0, 1]);
    assert_eq!(avg_value(&g, (0, 0), (3, 1)), 0);
    let h = PixelGrid::new(2, 1, vec![100, 101]);
    assert_eq!(avg_value(&h, (0, 0), (2, 1)), 100);
}

#[test]
fn avg_of_inner_rectangle() {
    // 3x3 grid 1..9 row-major; the bottom-right 2x2 holds 5, 6, 8, 9.
    let g = PixelGrid::new(3, 3, vec![1, 2, 3, 4, 5, 6, 7, 8, 9]);
    assert_eq!(avg_value(&g, (1, 1), (2, 2)), 7);
}

#[test]
fn avg_of_single_pixel() {
    let g = PixelGrid::new(2, 2, vec![11, 22, 33, 44]);
    assert_eq!(avg_value(&g, (1, 0), (1, 1)), 22);
    assert_eq!(avg_value(&g, (0, 1), (1, 1)), 33);
}

#[test]
fn avg_of_uniform_grid_is_the_value() {
    let g = PixelGrid::uniform(7, 5, 201);
    assert_eq!(avg_value(&g, (0, 0), (7, 5)), 201);
    assert_eq!(avg_value(&g, (3, 2), (4, 3)), 201);
}
