//! Nearest-neighbor texel lookup in a decoded texture.
//!
//! The texture owns the decoded RGBA pixel grid, row-major, and is read-only
//! for the whole frame. The caller reduces a wrapped UV coordinate to raw
//! pixel indices; the lookup clamps them to the last row and column, so the
//! boundary of the UV range never reads out of bounds.

use vstd::prelude::*;

use crate::color::Rgba;

verus! {

/// A decoded texture: its dimensions and RGBA pixel grid, row-major.
#[derive(Clone, Debug)]
pub struct Texture {
    width: usize,
    height: usize,
    data: Vec<Rgba>,
}

impl Texture {
    /// The pixel grid, row-major.
    pub closed spec fn pixels(self) -> Seq<Rgba> {
        self.data@
    }

    pub closed spec fn width_spec(self) -> int {
        self.width as int
    }

    pub closed spec fn height_spec(self) -> int {
        self.height as int
    }

    /// Well-formed: both dimensions positive, one pixel per grid cell.
    pub open spec fn wf(self) -> bool {
        &&& self.width_spec() > 0
        &&& self.height_spec() > 0
        &&& self.pixels().len() == self.width_spec() * self.height_spec()
    }

    /// The row-major index read for the raw pixel coordinates `(x, y)`:
    /// each coordinate is clamped to the last column or row.
    pub open spec fn texel_index(self, x: int, y: int) -> int {
        let cx = if x > self.width_spec() - 1 {
            self.width_spec() - 1
        } else {
            x
        };
        let cy = if y > self.height_spec() - 1 {
            self.height_spec() - 1
        } else {
            y
        };
        cy * self.width_spec() + cx
    }

    /// Takes ownership of a decoded pixel grid. Succeeds exactly when both
    /// dimensions are positive and the grid holds one pixel per cell.
    pub fn new(width: usize, height: usize, data: Vec<Rgba>) -> (r: Option<Texture>)
        ensures
            r is Some <==> (width > 0 && height > 0 && data@.len() == width * height),
            r matches Some(t) ==> {
                &&& t.wf()
                &&& t.width_spec() == width
                &&& t.height_spec() == height
                &&& t.pixels() == data@
            },
    {
        if width == 0 || height == 0 {
            return None;
        }
        let n = data.len();
        assert((n / width == height && n % width == 0) <==> n == width * height)
            by (nonlinear_arith)
            requires
                width > 0,
        ;
        if n / width != height || n % width != 0 {
            return None;
        }
        Some(Texture { width, height, data })
    }

    pub fn width(&self) -> (w: usize)
        ensures
            w == self.width_spec(),
    {
        self.width
    }

    pub fn height(&self) -> (h: usize)
        ensures
            h == self.height_spec(),
    {
        self.height
    }

    /// Nearest-neighbor lookup at raw pixel coordinates, clamped to the
    /// grid so that the UV boundary never reads out of bounds.
    pub fn texel(&self, x: usize, y: usize) -> (c: Rgba)
        requires
            self.wf(),
        ensures
            c == self.pixels()[self.texel_index(x as int, y as int)],
    {
        let w = self.width;
        let h = self.height;
        let cx = if x > w - 1 {
            w - 1
        } else {
            x
        };
        let cy = if y > h - 1 {
            h - 1
        } else {
            y
        };
        let n = self.data.len();
        assert(cy * w + cx < n) by (nonlinear_arith)
            requires
                cy < h,
                cx < w,
                n == w * h,
        ;
        self.data[cy * w + cx]
    }
}

} // verus!
