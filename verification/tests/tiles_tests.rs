use pixel_slicer::codec::decode_image;
use pixel_slicer::pixels::{grid_from_raw, Rgba};
use pixel_slicer::tiles::{export_tile, export_tiles, solid_tile_raw, ProgressCounter};
use rayon::iter::{IntoParallelRefIterator, ParallelIterator};
use std::sync::atomic::{AtomicU64, Ordering};

fn quadrant_grid() -> pixel_slicer::pixels::PixelGrid {
    // A 4x4 image whose four 2x2 quadrants have distinct corner colors.
    let mut raw = Vec::new();
    let colors = [
        [255u8, 0, 0, 255],
        [0, 255, 0, 255],
        [0, 0, 255, 255],
        [255, 255, 0, 255],
    ];
    for y in 0..4usize {
        for x in 0..4usize {
            let q = (y / 2) * 2 + x / 2;
            raw.extend_from_slice(&colors[q]);
        }
    }
    grid_from_raw(4, 4, &raw).unwrap()
}

#[test]
fn solid_buffer_repeats_the_color() {
    let c = Rgba { red: 1, green: 2, blue: 3, alpha: 4 };
    let raw = solid_tile_raw(2, c);
    assert_eq!(raw, vec![1, 2, 3, 4, 1, 2, 3, 4, 1, 2, 3, 4, 1, 2, 3, 4]);
}

#[test]
fn exported_tile_is_solid_with_the_origin_pixel() {
    let grid = quadrant_grid();
    let tile = export_tile(&grid, 2, 2, 2).unwrap();
    assert_eq!(tile.col, 1);
    assert_eq!(tile.row, 1);
    assert_eq!(tile.name, "pixel_1_1.png");
    // Decode the tile PNG: it must be exactly 2x2 and every pixel must be
    // the source pixel at the tile's origin.
    let decoded = decode_image(&tile.bytes).unwrap();
    assert_eq!(decoded.width, 2);
    assert_eq!(decoded.height, 2);
    let origin = grid.pixel_at(2, 2);
    for y in 0..2 {
        for x in 0..2 {
            assert_eq!(decoded.pixel_at(x, y), origin);
        }
    }
}

#[test]
fn export_run_produces_one_tile_per_cell() {
    let grid = quadrant_grid();
    let run = export_tiles(&grid, 2).unwrap();
    assert_eq!(run.width, 4);
    assert_eq!(run.height, 4);
    assert_eq!(run.tiles.len(), 4);
    assert_eq!(run.counter.value(), 4);
    assert_eq!(run.progress.len(), 4);
    let names: Vec<&str> = run.tiles.iter().map(|t| t.name.as_str()).collect();
    assert_eq!(
        names,
        vec!["pixel_0_0.png", "pixel_1_0.png", "pixel_0_1.png", "pixel_1_1.png"]
    );
    // No duplicate cells.
    for (i, a) in run.tiles.iter().enumerate() {
        for (j, b) in run.tiles.iter().enumerate() {
            if i != j {
                assert!((a.col, a.row) != (b.col, b.row));
            }
        }
    }
    assert_eq!(
        run.progress[3],
        "\rProgress: [########################################] 100% - 4 of 4 images saved"
    );
}

#[test]
fn rerunning_the_export_reproduces_identical_bytes() {
    let grid = quadrant_grid();
    let first = export_tiles(&grid, 2).unwrap();
    let second = export_tiles(&grid, 2).unwrap();
    for (a, b) in first.tiles.iter().zip(second.tiles.iter()) {
        assert_eq!(a.name, b.name);
        assert_eq!(a.bytes, b.bytes);
    }
}

#[test]
fn counter_counts_each_completion_once() {
    let mut c = ProgressCounter::new();
    assert_eq!(c.value(), 0);
    c.increment();
    c.increment();
    c.increment();
    assert_eq!(c.value(), 3);
}

#[test]
fn parallel_export_counts_every_tile_once() {
    // The same workload fanned out over pools of different sizes must
    // always end with the counter equal to the coordinate count.
    let grid = quadrant_grid();
    let coords = pixel_slicer::grid::tile_coords(grid.width, grid.height, 2);
    for threads in [1usize, 2, 16] {
        let pool = rayon::ThreadPoolBuilder::new()
            .num_threads(threads)
            .build()
            .unwrap();
        let counter = AtomicU64::new(0);
        pool.install(|| {
            coords.par_iter().for_each(|&(x, y)| {
                let tile = export_tile(&grid, x, y, 2).unwrap();
                assert!(!tile.bytes.is_empty());
                counter.fetch_add(1, Ordering::SeqCst);
            });
        });
        assert_eq!(counter.load(Ordering::SeqCst), coords.len() as u64);
    }
}

#[test]
fn pipeline_fails_before_any_tile_on_bad_input() {
    let garbage = vec![42u8; 64];
    match pixel_slicer::tiles::slice_image_into_pixels(&garbage, 16) {
        Err(pixel_slicer::codec::SliceError::DecodeFailed) => (),
        _ => panic!("a nonexistent or unreadable image must abort the run"),
    }
}

#[test]
fn pipeline_runs_end_to_end_on_encoded_input() {
    // Encode the quadrant image as PNG, then run the whole pipeline on
    // those bytes.
    let grid = quadrant_grid();
    let mut raw = Vec::new();
    for y in 0..4 {
        for x in 0..4 {
            let p = grid.pixel_at(x, y);
            raw.extend_from_slice(&[p.red, p.green, p.blue, p.alpha]);
        }
    }
    let png = pixel_slicer::codec::encode_png(4, 4, raw).unwrap();
    let run = pixel_slicer::tiles::slice_image_into_pixels(&png, 2).unwrap();
    assert_eq!(run.tiles.len(), 4);
    assert_eq!(run.counter.value(), 4);
    let tile = &run.tiles[3];
    let decoded = decode_image(&tile.bytes).unwrap();
    assert_eq!(decoded.pixel_at(0, 0), grid.pixel_at(2, 2));
}
