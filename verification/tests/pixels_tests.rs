use pixel_slicer::pixels::{grid_from_raw, Rgba};

#[test]
fn grid_from_raw_reads_pixels_row_major() {
    let raw = vec![
        1, 2, 3, 4, // (0, 0)
        5, 6, 7, 8, // (1, 0)
        9, 10, 11, 12, // (0, 1)
        13, 14, 15, 16, // (1, 1)
    ];
    let grid = grid_from_raw(2, 2, &raw).unwrap();
    assert_eq!(grid.width, 2);
    assert_eq!(grid.height, 2);
    assert_eq!(grid.pixel_at(0, 0), Rgba { red: 1, green: 2, blue: 3, alpha: 4 });
    assert_eq!(grid.pixel_at(1, 0), Rgba { red: 5, green: 6, blue: 7, alpha: 8 });
    assert_eq!(grid.pixel_at(0, 1), Rgba { red: 9, green: 10, blue: 11, alpha: 12 });
    assert_eq!(grid.pixel_at(1, 1), Rgba { red: 13, green: 14, blue: 15, alpha: 16 });
}

#[test]
fn grid_from_raw_rejects_wrong_length() {
    let raw = vec![0u8; 15];
    assert!(grid_from_raw(2, 2, &raw).is_none());
    let raw = vec![0u8; 16];
    assert!(grid_from_raw(2, 2, &raw).is_some());
    assert!(grid_from_raw(3, 2, &raw).is_none());
}

#[test]
fn empty_grid_is_accepted() {
    let raw: Vec<u8> = Vec::new();
    assert!(grid_from_raw(0, 5, &raw).is_some());
    assert!(grid_from_raw(5, 0, &raw).is_some());
}
