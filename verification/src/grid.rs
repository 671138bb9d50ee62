use vstd::prelude::*;

verus! {

use vstd::arithmetic::div_mod::{
    lemma_div_pos_is_pos,
    lemma_fundamental_div_mod,
    lemma_fundamental_div_mod_converse_div,
    lemma_fundamental_div_mod_converse_mod,
    lemma_mod_division_less_than_divisor,
    lemma_mod_multiples_basic,
    lemma_multiply_divide_lt,
    lemma_remainder_lower,
};
use vstd::arithmetic::mul::{
    lemma_mul_by_zero_is_zero,
    lemma_mul_equality_converse,
    lemma_mul_inequality,
    lemma_mul_is_commutative,
    lemma_mul_is_distributive_add,
    lemma_mul_is_distributive_sub,
    lemma_mul_nonnegative,
};

/// Number of whole tiles that fit across the image: partial columns at the
/// right edge are dropped.
pub open spec fn grid_cols(width: int, size: int) -> int
    recommends
        size >= 1,
{
    width / size
}

/// Number of whole tiles that fit down the image: partial rows at the
/// bottom edge are dropped.
pub open spec fn grid_rows(height: int, size: int) -> int
    recommends
        size >= 1,
{
    height / size
}

/// Total number of fully contained tiles in a `width x height` image with
/// tile edge length `size`.
pub open spec fn tile_count(width: int, height: int, size: int) -> int
    recommends
        size >= 1,
{
    grid_cols(width, size) * grid_rows(height, size)
}

/// The x pixel coordinate of the `k`-th tile origin in row-major order.
pub open spec fn tile_x(k: int, width: int, size: int) -> int
    recommends
        size >= 1,
        grid_cols(width, size) >= 1,
{
    size * (k % grid_cols(width, size))
}

/// The y pixel coordinate of the `k`-th tile origin in row-major order.
pub open spec fn tile_y(k: int, width: int, size: int) -> int
    recommends
        size >= 1,
        grid_cols(width, size) >= 1,
{
    size * (k / grid_cols(width, size))
}

/// Produce the ordered set of top-left pixel coordinates of every fully
/// contained tile, in row-major order: all columns of row 0, then row 1,
/// and so on. Partial tiles at the right and bottom edges are dropped.
pub fn tile_coords(width: u32, height: u32, size: u32) -> (coords: Vec<(u32, u32)>)
    requires
        size >= 1,
    ensures
        coords@.len() == tile_count(width as int, height as int, size as int),
        forall|k: int|
            0 <= k < coords@.len() ==> (#[trigger] coords@[k]).0 == tile_x(
                k,
                width as int,
                size as int,
            ) && coords@[k].1 == tile_y(k, width as int, size as int),
        forall|k: int|
            0 <= k < coords@.len() ==> (#[trigger] coords@[k]).0 % size == 0 && coords@[k].1 % size
                == 0 && coords@[k].0 < width && coords@[k].1 < height,
{
    let nx = width / size;
    let ny = height / size;
    proof {
        lemma_fundamental_div_mod(width as int, size as int);
        lemma_fundamental_div_mod(height as int, size as int);
    }
    let mut coords: Vec<(u32, u32)> = Vec::new();
    let mut j: u32 = 0;
    while j < ny
        invariant
            size >= 1,
            nx == grid_cols(width as int, size as int),
            ny == grid_rows(height as int, size as int),
            nx as int * size as int <= width as int,
            ny as int * size as int <= height as int,
            0 <= j <= ny,
            coords@.len() == j as int * nx as int,
            forall|k: int|
                0 <= k < coords@.len() ==> (#[trigger] coords@[k]).0 == tile_x(
                    k,
                    width as int,
                    size as int,
                ) && coords@[k].1 == tile_y(k, width as int, size as int),
            forall|k: int|
                0 <= k < coords@.len() ==> (#[trigger] coords@[k]).0 % size == 0
                    && coords@[k].1 % size == 0 && coords@[k].0 < width && coords@[k].1 < height,
        decreases ny - j,
    {
        proof {
            lemma_mul_inequality(j as int + 1, ny as int, size as int);
            lemma_mul_is_distributive_add(size as int, j as int, 1);
            lemma_mul_is_commutative(j as int + 1, size as int);
            lemma_mul_is_commutative(j as int, size as int);
            assert(j as int * size as int + size as int <= height as int);
        }
        let y = j * size;
        let mut i: u32 = 0;
        while i < nx
            invariant
                size >= 1,
                nx == grid_cols(width as int, size as int),
                ny == grid_rows(height as int, size as int),
                nx as int * size as int <= width as int,
                ny as int * size as int <= height as int,
                0 <= j < ny,
                y == j as int * size as int,
                y as int + size as int <= height as int,
                0 <= i <= nx,
                coords@.len() == j as int * nx as int + i as int,
                forall|k: int|
                    0 <= k < coords@.len() ==> (#[trigger] coords@[k]).0 == tile_x(
                        k,
                        width as int,
                        size as int,
                    ) && coords@[k].1 == tile_y(k, width as int, size as int),
                forall|k: int|
                    0 <= k < coords@.len() ==> (#[trigger] coords@[k]).0 % size == 0
                        && coords@[k].1 % size == 0 && coords@[k].0 < width && coords@[k].1
                        < height,
            decreases nx - i,
        {
            proof {
                lemma_mul_inequality(i as int + 1, nx as int, size as int);
                lemma_mul_is_distributive_add(size as int, i as int, 1);
                lemma_mul_is_commutative(i as int + 1, size as int);
                lemma_mul_is_commutative(i as int, size as int);
                assert(i as int * size as int + size as int <= width as int);
            }
            let x = i * size;
            proof {
                let k = coords@.len() as int;
                assert(k == nx as int * j as int + i as int) by {
                    lemma_mul_is_commutative(j as int, nx as int);
                }
                lemma_fundamental_div_mod_converse_mod(k, nx as int, j as int, i as int);
                lemma_fundamental_div_mod_converse_div(k, nx as int, j as int, i as int);
                assert(tile_x(k, width as int, size as int) == size as int * i as int);
                assert(tile_y(k, width as int, size as int) == size as int * j as int);
                lemma_mul_is_commutative(size as int, i as int);
                lemma_mul_is_commutative(size as int, j as int);
                lemma_mod_multiples_basic(i as int, size as int);
                lemma_mod_multiples_basic(j as int, size as int);
            }
            coords.push((x, y));
            i = i + 1;
        }
        proof {
            lemma_mul_is_distributive_add(nx as int, j as int, 1);
            lemma_mul_is_commutative(j as int, nx as int);
            lemma_mul_is_commutative(j as int + 1, nx as int);
        }
        j = j + 1;
    }
    proof {
        lemma_mul_is_commutative(ny as int, nx as int);
    }
    coords
}

/// Every row-major position below the tile count names a whole tile that
/// lies inside the image: its grid cell is in range, and its origin leaves
/// room for a full tile before the image's edge.
pub proof fn lemma_tile_origin_bounds(width: int, height: int, size: int, k: int)
    requires
        size >= 1,
        width >= 0,
        height >= 0,
        0 <= k < tile_count(width, height, size),
    ensures
        1 <= grid_cols(width, size),
        1 <= grid_rows(height, size),
        0 <= k % grid_cols(width, size) < grid_cols(width, size),
        0 <= k / grid_cols(width, size) < grid_rows(height, size),
        0 <= tile_x(k, width, size) && tile_x(k, width, size) + size <= width,
        0 <= tile_y(k, width, size) && tile_y(k, width, size) + size <= height,
{
    let nx = grid_cols(width, size);
    let ny = grid_rows(height, size);
    lemma_fundamental_div_mod(width, size);
    lemma_fundamental_div_mod(height, size);
    assert(nx >= 0 && ny >= 0) by {
        lemma_div_pos_is_pos(width, size);
        lemma_div_pos_is_pos(height, size);
    }
    assert(nx >= 1 && ny >= 1) by {
        if nx == 0 || ny == 0 {
            lemma_mul_by_zero_is_zero(nx);
            lemma_mul_by_zero_is_zero(ny);
            lemma_mul_is_commutative(nx, ny);
            assert(tile_count(width, height, size) == 0);
        }
    }
    lemma_mod_division_less_than_divisor(k, nx);
    lemma_remainder_lower(k, nx);
    lemma_multiply_divide_lt(k, nx, ny);
    lemma_div_pos_is_pos(k, nx);
    assert(size * (k % nx) + size <= width) by {
        lemma_mul_inequality(k % nx, nx - 1, size);
        lemma_mul_is_commutative(k % nx, size);
        lemma_mul_is_distributive_sub(size, nx, 1);
        lemma_mul_is_commutative(nx - 1, size);
    }
    assert(size * (k / nx) + size <= height) by {
        lemma_mul_inequality(k / nx, ny - 1, size);
        lemma_mul_is_commutative(k / nx, size);
        lemma_mul_is_distributive_sub(size, ny, 1);
        lemma_mul_is_commutative(ny - 1, size);
    }
    assert(size * (k % nx) >= 0) by {
        lemma_mul_nonnegative(size, k % nx);
    }
    assert(size * (k / nx) >= 0) by {
        lemma_mul_nonnegative(size, k / nx);
    }
}

/// Two distinct positions in the row-major tile order always name distinct
/// pixel origins, so no two generated coordinates (and no two derived
/// column/row file names) collide.
pub proof fn lemma_tile_origins_distinct(width: int, size: int, k1: int, k2: int)
    requires
        size >= 1,
        grid_cols(width, size) >= 1,
        0 <= k1,
        0 <= k2,
        k1 != k2,
    ensures
        tile_x(k1, width, size) != tile_x(k2, width, size) || tile_y(k1, width, size) != tile_y(
            k2,
            width,
            size,
        ),
{
    let nx = grid_cols(width, size);
    if tile_x(k1, width, size) == tile_x(k2, width, size) && tile_y(k1, width, size) == tile_y(
        k2,
        width,
        size,
    ) {
        lemma_mul_equality_converse(size, k1 % nx, k2 % nx);
        lemma_mul_equality_converse(size, k1 / nx, k2 / nx);
        lemma_fundamental_div_mod(k1, nx);
        lemma_fundamental_div_mod(k2, nx);
        assert(false);
    }
}

/// Every grid cell `(col, row)` with `col < grid_cols` and `row < grid_rows`
/// is covered: the row-major position `row * grid_cols + col` lies within
/// the generated sequence and its origin is exactly `(size*col, size*row)`.
pub proof fn lemma_grid_covered(width: int, height: int, size: int, col: int, row: int)
    requires
        size >= 1,
        0 <= col < grid_cols(width, size),
        0 <= row < grid_rows(height, size),
    ensures
        0 <= row * grid_cols(width, size) + col < tile_count(width, height, size),
        tile_x(row * grid_cols(width, size) + col, width, size) == size * col,
        tile_y(row * grid_cols(width, size) + col, width, size) == size * row,
{
    let nx = grid_cols(width, size);
    let ny = grid_rows(height, size);
    let k = row * nx + col;
    lemma_mul_inequality(row + 1, ny, nx);
    lemma_mul_is_distributive_add(nx, row, 1);
    lemma_mul_is_commutative(row + 1, nx);
    lemma_mul_is_commutative(row, nx);
    lemma_mul_is_commutative(ny, nx);
    assert(k < ny * nx);
    assert(k == nx * row + col) by {
        lemma_mul_is_commutative(row, nx);
    }
    lemma_fundamental_div_mod_converse_mod(k, nx, row, col);
    lemma_fundamental_div_mod_converse_div(k, nx, row, col);
}

} // verus!
