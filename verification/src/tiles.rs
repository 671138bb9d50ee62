use vstd::prelude::*;

verus! {

use vstd::arithmetic::div_mod::{
    lemma_div_multiples_vanish,
    lemma_div_pos_is_pos,
    lemma_fundamental_div_mod,
};
use vstd::arithmetic::mul::{lemma_mul_is_associative, lemma_mul_inequality};
use crate::codec::{SliceError, decode_image, decoded_rgba_of, encode_png, png_encoding_of};
use crate::grid::{grid_cols, lemma_tile_origin_bounds, tile_count, tile_coords, tile_x, tile_y};
use crate::pixels::{PixelGrid, Rgba, grid_matches_raw, lemma_grid_pixel_matches_raw, raw_pixel};
use crate::text::{
    lemma_tile_name_chars_injective,
    progress_line_chars,
    render_progress,
    tile_file_name,
    tile_name_chars,
};

/// The channel stored at flat byte index `i` of a solid RGBA buffer that
/// is filled with the color `c`.
pub open spec fn solid_channel(c: Rgba, i: int) -> u8 {
    if i % 4 == 0 {
        c.red
    } else if i % 4 == 1 {
        c.green
    } else if i % 4 == 2 {
        c.blue
    } else {
        c.alpha
    }
}

/// The flat row-major RGBA buffer of a `size x size` image whose every
/// pixel is the color `c`.
pub open spec fn solid_raw_bytes(size: int, c: Rgba) -> Seq<u8>
    recommends
        0 <= size,
{
    Seq::new((4 * size * size) as nat, |i: int| solid_channel(c, i))
}

/// Every pixel of a solid buffer is the fill color: the four bytes of
/// pixel `p` are exactly the channels of `c`.
pub proof fn lemma_solid_tile_pixel(size: int, c: Rgba, p: int)
    requires
        0 <= p < size * size,
    ensures
        solid_raw_bytes(size, c)[4 * p] == c.red,
        solid_raw_bytes(size, c)[4 * p + 1] == c.green,
        solid_raw_bytes(size, c)[4 * p + 2] == c.blue,
        solid_raw_bytes(size, c)[4 * p + 3] == c.alpha,
{
    lemma_mul_is_associative(4, size, size);
    assert(4 * p + 3 < 4 * (size * size));
}

/// Build the flat buffer of a solid `size x size` tile filled with `c`.
pub fn solid_tile_raw(size: u32, c: Rgba) -> (raw: Vec<u8>)
    requires
        1 <= size,
        4 * (size as int) * (size as int) <= usize::MAX,
    ensures
        raw@ == solid_raw_bytes(size as int, c),
{
    proof {
        lemma_mul_is_associative(4, size as int, size as int);
        lemma_mul_inequality(1, size as int, size as int);
    }
    let side = size as usize;
    let n = 4 * (side * side);
    let mut raw: Vec<u8> = Vec::new();
    let mut k: usize = 0;
    while k < n
        invariant
            n == 4 * (size as int) * (size as int),
            0 <= k <= n,
            raw@.len() == k,
            forall|i: int| 0 <= i < k ==> raw@[i] == solid_channel(c, i),
        decreases n - k,
    {
        let rem = k % 4;
        let b = if rem == 0 {
            c.red
        } else if rem == 1 {
            c.green
        } else if rem == 2 {
            c.blue
        } else {
            c.alpha
        };
        raw.push(b);
        k = k + 1;
    }
    proof {
        assert(raw@ =~= solid_raw_bytes(size as int, c));
    }
    raw
}

/// One exported tile: its grid cell, its deterministic file name, and the
/// encoded PNG bytes of the solid `size x size` image filled with the
/// source pixel sampled at the tile's origin.
pub struct TileFile {
    pub col: u32,
    pub row: u32,
    pub name: String,
    pub bytes: Vec<u8>,
}

/// What the PNG encoder produces for the tile whose origin samples the
/// color `c`.
pub open spec fn tile_png(size: u32, c: Rgba) -> Option<Seq<u8>> {
    png_encoding_of(size, size, solid_raw_bytes(size as int, c))
}

/// Export the tile whose origin is the source pixel `(x, y)`: sample that
/// one pixel, synthesize a solid `size x size` buffer of its color, and
/// encode it as PNG. Succeeds exactly when the encoder accepts the tile.
pub fn export_tile(grid: &PixelGrid, x: u32, y: u32, size: u32) -> (r: Result<TileFile, SliceError>)
    requires
        grid.wf(),
        x < grid.width,
        y < grid.height,
        1 <= size,
        4 * (size as int) * (size as int) <= usize::MAX,
    ensures
        r.is_ok() <==> tile_png(size, grid.pixel_spec(x as int, y as int)).is_some(),
        r matches Ok(t) ==> t.col == x as int / size as int && t.row == y as int / size as int
            && t.name@ == tile_name_chars(t.col as int, t.row as int) && Some(t.bytes@) == tile_png(
            size,
            grid.pixel_spec(x as int, y as int),
        ),
        r matches Err(e) ==> e == SliceError::EncodeFailed,
{
    let pixel = grid.pixel_at(x, y);
    let raw = solid_tile_raw(size, pixel);
    let col = x / size;
    let row = y / size;
    let name = tile_file_name(col, row);
    match encode_png(size, size, raw) {
        Ok(bytes) => Ok(TileFile { col, row, name, bytes }),
        Err(e) => Err(e),
    }
}

/// The count of tiles exported so far. The parallel run shares one such
/// counter through an atomic integer; the sequential driver below owns it
/// outright, and either way it grows by exactly one per exported tile.
pub struct ProgressCounter {
    pub count: u64,
}

impl ProgressCounter {
    /// A fresh counter starts at zero.
    pub fn new() -> (c: ProgressCounter)
        ensures
            c.count == 0,
    {
        ProgressCounter { count: 0 }
    }

    /// Record one more completed tile.
    pub fn increment(&mut self)
        requires
            old(self).count < u64::MAX,
        ensures
            final(self).count == old(self).count + 1,
    {
        self.count = self.count + 1;
    }

    /// The number of tiles recorded as completed.
    pub fn value(&self) -> (v: u64)
        ensures
            v == self.count,
    {
        self.count
    }
}

/// The tile at row-major position `k` was exported correctly: its grid
/// cell is `(k mod cols, k div cols)`, its file name encodes that cell,
/// and its bytes are the PNG of the solid tile filled with the source
/// pixel at the tile's origin.
pub open spec fn tile_ok(grid: PixelGrid, size: u32, k: int, t: TileFile) -> bool
    recommends
        grid.wf(),
        1 <= size,
{
    let nx = grid_cols(grid.width as int, size as int);
    &&& t.col == k % nx
    &&& t.row == k / nx
    &&& t.name@ == tile_name_chars(t.col as int, t.row as int)
    &&& Some(t.bytes@) == tile_png(
        size,
        grid.pixel_spec(
            tile_x(k, grid.width as int, size as int),
            tile_y(k, grid.width as int, size as int),
        ),
    )
}

/// Whether the PNG encoder accepts the tile at row-major position `k`.
pub open spec fn tile_encodable(grid: PixelGrid, size: u32, k: int) -> bool
    recommends
        grid.wf(),
        1 <= size,
{
    tile_png(
        size,
        grid.pixel_spec(
            tile_x(k, grid.width as int, size as int),
            tile_y(k, grid.width as int, size as int),
        ),
    ).is_some()
}

/// Distinct row-major positions get distinct output file names, so no two
/// exported tiles of one run can collide on disk.
pub proof fn lemma_tile_names_distinct(width: int, size: int, k1: int, k2: int)
    requires
        size >= 1,
        grid_cols(width, size) >= 1,
        0 <= k1,
        0 <= k2,
        k1 != k2,
    ensures
        tile_name_chars(k1 % grid_cols(width, size), k1 / grid_cols(width, size))
            != tile_name_chars(k2 % grid_cols(width, size), k2 / grid_cols(width, size)),
{
    let nx = grid_cols(width, size);
    lemma_div_pos_is_pos(k1, nx);
    lemma_div_pos_is_pos(k2, nx);
    if k1 % nx == k2 % nx && k1 / nx == k2 / nx {
        lemma_fundamental_div_mod(k1, nx);
        lemma_fundamental_div_mod(k2, nx);
        assert(false);
    }
    lemma_tile_name_chars_injective(k1 % nx, k1 / nx, k2 % nx, k2 / nx);
}

/// Everything one run produces: the source dimensions, one tile per grid
/// cell in row-major order, the progress line printed after each
/// completion, and the final progress counter.
pub struct SliceRun {
    pub width: u32,
    pub height: u32,
    pub tiles: Vec<TileFile>,
    pub progress: Vec<String>,
    pub counter: ProgressCounter,
}

/// A run over `grid` with tile edge `size` came out right: one tile per
/// fully contained grid cell, each exported correctly, one progress line
/// per tile, and the counter equal to the tile count.
pub open spec fn run_ok(grid: PixelGrid, size: u32, run: SliceRun) -> bool
    recommends
        grid.wf(),
        1 <= size,
{
    let total = tile_count(grid.width as int, grid.height as int, size as int);
    &&& run.width == grid.width
    &&& run.height == grid.height
    &&& run.tiles@.len() == total
    &&& forall|k: int| 0 <= k < total ==> tile_ok(grid, size, k, #[trigger] run.tiles@[k])
    &&& run.progress@.len() == total
    &&& forall|k: int|
        0 <= k < total ==> (#[trigger] run.progress@[k])@ == progress_line_chars(k + 1, total)
    &&& run.counter.count == total
}

/// Export every fully contained tile of `grid`, in row-major order,
/// counting each completion and rendering the progress line after it.
/// Fails, with the first offending tile, exactly when the encoder rejects
/// some tile.
pub fn export_tiles(grid: &PixelGrid, size: u32) -> (r: Result<SliceRun, SliceError>)
    requires
        grid.wf(),
        1 <= size,
        4 * (size as int) * (size as int) <= usize::MAX,
    ensures
        r.is_ok() <==> (forall|k: int|
            0 <= k < tile_count(grid.width as int, grid.height as int, size as int)
                ==> tile_encodable(*grid, size, k)),
        r matches Ok(run) ==> run_ok(*grid, size, run),
        r matches Err(e) ==> e == SliceError::EncodeFailed,
{
    let coords = tile_coords(grid.width, grid.height, size);
    let total = coords.len();
    let ghost total_spec = tile_count(grid.width as int, grid.height as int, size as int);
    let mut tiles: Vec<TileFile> = Vec::new();
    let mut progress: Vec<String> = Vec::new();
    let mut counter = ProgressCounter::new();
    let mut k: usize = 0;
    while k < total
        invariant
            grid.wf(),
            1 <= size,
            4 * (size as int) * (size as int) <= usize::MAX,
            total == coords@.len(),
            total == total_spec,
            total_spec == tile_count(grid.width as int, grid.height as int, size as int),
            forall|i: int|
                0 <= i < coords@.len() ==> (#[trigger] coords@[i]).0 == tile_x(
                    i,
                    grid.width as int,
                    size as int,
                ) && coords@[i].1 == tile_y(i, grid.width as int, size as int),
            forall|i: int|
                0 <= i < coords@.len() ==> (#[trigger] coords@[i]).0 % size == 0
                    && coords@[i].1 % size == 0 && coords@[i].0 < grid.width && coords@[i].1
                    < grid.height,
            0 <= k <= total,
            tiles@.len() == k,
            forall|i: int| 0 <= i < k ==> tile_ok(*grid, size, i, #[trigger] tiles@[i]),
            forall|i: int| 0 <= i < k ==> tile_encodable(*grid, size, i),
            progress@.len() == k,
            forall|i: int|
                0 <= i < k ==> (#[trigger] progress@[i])@ == progress_line_chars(
                    i + 1,
                    total_spec,
                ),
            counter.count == k,
        decreases total - k,
    {
        let (x, y) = coords[k];
        match export_tile(grid, x, y, size) {
            Ok(t) => {
                proof {
                    let nx = grid_cols(grid.width as int, size as int);
                    lemma_div_multiples_vanish(k as int % nx, size as int);
                    lemma_div_multiples_vanish(k as int / nx, size as int);
                }
                tiles.push(t);
            },
            Err(e) => {
                proof {
                    assert(coords@[k as int].0 == tile_x(k as int, grid.width as int, size as int));
                    assert(coords@[k as int].1 == tile_y(k as int, grid.width as int, size as int));
                    assert(!tile_encodable(*grid, size, k as int));
                }
                return Err(e);
            },
        }
        counter.increment();
        let line = render_progress(counter.value(), total as u64);
        progress.push(line);
        k = k + 1;
    }
    Ok(
        SliceRun {
            width: grid.width,
            height: grid.height,
            tiles,
            progress,
            counter,
        },
    )
}

/// Within one run, every tile gets its own file name: writing the tiles
/// to one directory loses none of them.
pub proof fn lemma_run_names_unique(grid: PixelGrid, size: u32, run: SliceRun, k1: int, k2: int)
    requires
        grid.wf(),
        1 <= size,
        run_ok(grid, size, run),
        0 <= k1 < run.tiles@.len(),
        0 <= k2 < run.tiles@.len(),
        k1 != k2,
    ensures
        run.tiles@[k1].name@ != run.tiles@[k2].name@,
{
    lemma_tile_origin_bounds(grid.width as int, grid.height as int, size as int, k1);
    lemma_tile_names_distinct(grid.width as int, size as int, k1, k2);
}

/// Two runs over the same image with the same tile size produce the same
/// file names and byte-identical file contents: re-running the export is
/// idempotent on disk.
pub proof fn lemma_rerun_reproduces_bytes(
    grid: PixelGrid,
    size: u32,
    run1: SliceRun,
    run2: SliceRun,
    k: int,
)
    requires
        grid.wf(),
        1 <= size,
        run_ok(grid, size, run1),
        run_ok(grid, size, run2),
        0 <= k < run1.tiles@.len(),
    ensures
        run2.tiles@.len() == run1.tiles@.len(),
        run1.tiles@[k].name@ == run2.tiles@[k].name@,
        run1.tiles@[k].bytes@ == run2.tiles@[k].bytes@,
{
    assert(tile_ok(grid, size, k, run1.tiles@[k]));
    assert(tile_ok(grid, size, k, run2.tiles@[k]));
}

/// The color of the source pixel at the origin of the tile at row-major
/// position `k`, read straight from a decoded image `t` (width, height,
/// flat RGBA buffer).
pub open spec fn decoded_tile_color(t: (u32, u32, Seq<u8>), size: u32, k: int) -> Rgba {
    raw_pixel(
        t.2,
        t.0 as int,
        tile_x(k, t.0 as int, size as int),
        tile_y(k, t.0 as int, size as int),
    )
}

/// The whole pipeline on in-memory values: decode the image bytes, then
/// export one solid tile per fully contained grid cell. Succeeds exactly
/// when the bytes decode and every tile encodes; a decode failure comes
/// before any tile is produced.
pub fn slice_image_into_pixels(image_bytes: &[u8], size: u32) -> (r: Result<SliceRun, SliceError>)
    requires
        1 <= size,
        4 * (size as int) * (size as int) <= usize::MAX,
    ensures
        r.is_ok() <==> (decoded_rgba_of(image_bytes@) matches Some(t) && forall|k: int|
            0 <= k < tile_count(t.0 as int, t.1 as int, size as int) ==> (#[trigger] tile_png(
                size,
                decoded_tile_color(t, size, k),
            )).is_some()),
        r matches Err(e) ==> (e == SliceError::DecodeFailed <==> decoded_rgba_of(
            image_bytes@,
        ).is_none()),
        r matches Ok(run) ==> (decoded_rgba_of(image_bytes@) matches Some(t) && run.width == t.0
            && run.height == t.1 && exists|g: PixelGrid|
            g.wf() && #[trigger] run_ok(g, size, run) && g.width == t.0 && g.height == t.1
                && grid_matches_raw(g, t.2)),
{
    let grid = match decode_image(image_bytes) {
        Ok(g) => g,
        Err(e) => {
            return Err(e);
        },
    };
    let ghost t = choose|t: (u32, u32, Seq<u8>)|
        decoded_rgba_of(image_bytes@) == Some(t) && grid.width == t.0 && grid.height == t.1
            && grid_matches_raw(grid, t.2);
    proof {
        assert forall|k: int|
            #![trigger tile_encodable(grid, size, k)]
            #![trigger tile_png(size, decoded_tile_color(t, size, k))]
            0 <= k < tile_count(grid.width as int, grid.height as int, size as int) implies (
        tile_encodable(grid, size, k) <==> tile_png(
            size,
            decoded_tile_color(t, size, k),
        ).is_some()) by {
            lemma_tile_origin_bounds(grid.width as int, grid.height as int, size as int, k);
            lemma_grid_pixel_matches_raw(
                grid,
                t.2,
                tile_x(k, grid.width as int, size as int),
                tile_y(k, grid.width as int, size as int),
            );
        }
    }
    match export_tiles(&grid, size) {
        Ok(run) => {
            proof {
                assert(grid.wf() && run_ok(grid, size, run));
            }
            Ok(run)
        },
        Err(e) => Err(e),
    }
}

} // verus!
