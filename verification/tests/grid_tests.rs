use pixel_slicer::grid::tile_coords;

#[test]
fn coordinate_count_for_100_by_50() {
    // floor(100/16) = 6 columns, floor(50/16) = 3 rows.
    let coords = tile_coords(100, 50, 16);
    assert_eq!(coords.len(), 18);
}

#[test]
fn coordinates_are_aligned_and_in_bounds() {
    let coords = tile_coords(100, 50, 16);
    for &(x, y) in coords.iter() {
        assert_eq!(x % 16, 0);
        assert_eq!(y % 16, 0);
        assert!(x < 100);
        assert!(y < 50);
    }
}

#[test]
fn coordinates_are_row_major() {
    let coords = tile_coords(4, 4, 2);
    assert_eq!(coords, vec![(0, 0), (2, 0), (0, 2), (2, 2)]);
}

#[test]
fn coordinates_are_unique_and_cover_the_grid() {
    let coords = tile_coords(100, 50, 16);
    for (i, a) in coords.iter().enumerate() {
        for (j, b) in coords.iter().enumerate() {
            if i != j {
                assert_ne!(a, b);
            }
        }
    }
    for col in 0..6u32 {
        for row in 0..3u32 {
            assert!(coords.contains(&(col * 16, row * 16)));
        }
    }
}

#[test]
fn partial_tiles_are_dropped() {
    // 15 pixels hold no whole 16-pixel tile.
    assert_eq!(tile_coords(15, 32, 16).len(), 0);
    assert_eq!(tile_coords(32, 15, 16).len(), 0);
    // The remainder pixels beyond 2 whole tiles are dropped silently.
    assert_eq!(tile_coords(47, 16, 16).len(), 2);
}

#[test]
fn one_by_one_tiles_cover_every_pixel() {
    let coords = tile_coords(3, 2, 1);
    assert_eq!(coords.len(), 6);
    assert_eq!(coords[0], (0, 0));
    assert_eq!(coords[5], (2, 1));
}
