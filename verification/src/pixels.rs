use vstd::prelude::*;

verus! {

use vstd::arithmetic::div_mod::{lemma_fundamental_div_mod, lemma_div_multiples_vanish};
use vstd::arithmetic::mul::{
    lemma_mul_inequality,
    lemma_mul_is_associative,
    lemma_mul_is_commutative,
    lemma_mul_is_distributive_sub,
    lemma_mul_upper_bound,
};

/// One 8-bit-per-channel RGBA pixel color.
#[derive(Clone, Copy, PartialEq, Eq, Structural, Hash, Debug)]
pub struct Rgba {
    pub red: u8,
    pub green: u8,
    pub blue: u8,
    pub alpha: u8,
}

/// An immutable 2-D grid of RGBA pixels with random access by `(x, y)`,
/// stored row-major: the pixel at column `x`, row `y` sits at index
/// `y * width + x`.
pub struct PixelGrid {
    pub width: u32,
    pub height: u32,
    pub pixels: Vec<Rgba>,
}

impl PixelGrid {
    /// The storage holds exactly one pixel per grid cell.
    pub open spec fn wf(&self) -> bool {
        self.pixels@.len() == self.width as int * self.height as int
    }

    /// The pixel at column `x`, row `y`.
    pub open spec fn pixel_spec(&self, x: int, y: int) -> Rgba
        recommends
            self.wf(),
            0 <= x < self.width,
            0 <= y < self.height,
    {
        self.pixels@[y * self.width as int + x]
    }

    /// Random-access pixel lookup.
    pub fn pixel_at(&self, x: u32, y: u32) -> (p: Rgba)
        requires
            self.wf(),
            x < self.width,
            y < self.height,
        ensures
            p == self.pixel_spec(x as int, y as int),
    {
        let n = self.pixels.len();
        proof {
            let w = self.width as int;
            let h = self.height as int;
            lemma_mul_inequality(y as int, h - 1, w);
            lemma_mul_is_distributive_sub(w, h, 1);
            lemma_mul_is_commutative(h - 1, w);
            assert(y as int * w + (x as int) < w * h);
            assert(w * h == n as int);
        }
        let idx = (y as usize) * (self.width as usize) + (x as usize);
        self.pixels[idx]
    }
}

/// The pixel that a flat row-major RGBA byte buffer of the given width
/// holds at column `x`, row `y`.
pub open spec fn raw_pixel(raw: Seq<u8>, width: int, x: int, y: int) -> Rgba
    recommends
        0 <= x < width,
        0 <= y,
        4 * (y * width + x) + 3 < raw.len(),
{
    Rgba {
        red: raw[4 * (y * width + x)],
        green: raw[4 * (y * width + x) + 1],
        blue: raw[4 * (y * width + x) + 2],
        alpha: raw[4 * (y * width + x) + 3],
    }
}

/// The grid holds exactly the pixels of the flat row-major byte buffer
/// `raw`, four bytes (red, green, blue, alpha) per pixel.
pub open spec fn grid_matches_raw(g: PixelGrid, raw: Seq<u8>) -> bool {
    &&& raw.len() == 4 * (g.width as int) * (g.height as int)
    &&& forall|k: int|
        0 <= k < g.pixels@.len() ==> (#[trigger] g.pixels@[k]).red == raw[4 * k]
            && g.pixels@[k].green == raw[4 * k + 1] && g.pixels@[k].blue == raw[4 * k + 2]
            && g.pixels@[k].alpha == raw[4 * k + 3]
}

/// A grid that matches a raw buffer returns, at every coordinate, exactly
/// the pixel that the buffer holds there.
pub proof fn lemma_grid_pixel_matches_raw(g: PixelGrid, raw: Seq<u8>, x: int, y: int)
    requires
        g.wf(),
        grid_matches_raw(g, raw),
        0 <= x < g.width,
        0 <= y < g.height,
    ensures
        g.pixel_spec(x, y) == raw_pixel(raw, g.width as int, x, y),
{
    let w = g.width as int;
    let h = g.height as int;
    lemma_mul_inequality(y, h - 1, w);
    lemma_mul_is_distributive_sub(w, h, 1);
    lemma_mul_is_commutative(h - 1, w);
    assert(0 <= y * w + x < g.pixels@.len());
    assert(g.pixels@[y * w + x].red == raw[4 * (y * w + x)]);
}

/// Assemble a pixel grid from a flat row-major byte buffer with four bytes
/// (red, green, blue, alpha) per pixel. Returns `None` exactly when the
/// buffer length does not match the dimensions.
pub fn grid_from_raw(width: u32, height: u32, raw: &Vec<u8>) -> (r: Option<PixelGrid>)
    ensures
        r.is_some() <==> raw@.len() == 4 * (width as int) * (height as int),
        r matches Some(g) ==> g.wf() && g.width == width && g.height == height
            && grid_matches_raw(g, raw@),
{
    proof {
        lemma_mul_upper_bound(4 * (width as int), 4 * 0xffff_ffffint, height as int, 0xffff_ffffint);
    }
    let expected: u128 = 4 * (width as u128) * (height as u128);
    if (raw.len() as u128) != expected {
        return None;
    }
    let n = raw.len() / 4;
    proof {
        lemma_fundamental_div_mod(raw@.len() as int, 4);
        lemma_div_multiples_vanish(width as int * height as int, 4);
        assert(4 * (width as int) * (height as int) == 4 * (width as int * height as int)) by {
            lemma_mul_is_associative(4, width as int, height as int);
        }
        assert(n as int == width as int * height as int);
    }
    let mut pixels: Vec<Rgba> = Vec::new();
    let mut i: usize = 0;
    while i < n
        invariant
            n as int == width as int * height as int,
            4 * n as int == raw@.len(),
            4 * n as int <= usize::MAX as int,
            0 <= i <= n,
            pixels@.len() == i,
            forall|k: int|
                0 <= k < i ==> (#[trigger] pixels@[k]).red == raw@[4 * k] && pixels@[k].green
                    == raw@[4 * k + 1] && pixels@[k].blue == raw@[4 * k + 2] && pixels@[k].alpha
                    == raw@[4 * k + 3],
        decreases n - i,
    {
        let p = Rgba {
            red: raw[4 * i],
            green: raw[4 * i + 1],
            blue: raw[4 * i + 2],
            alpha: raw[4 * i + 3],
        };
        pixels.push(p);
        i = i + 1;
    }
    Some(PixelGrid { width, height, pixels })
}

} // verus!
