//! Plain 8-bit color values shared by the texture sampler and the rasterizer.

use vstd::prelude::*;

verus! {

/// An opaque 8-bit RGB color, the payload of an emitted fragment.
#[derive(Clone, Copy, Debug, PartialEq, Eq, Structural)]
pub struct Rgb {
    pub r: u8,
    pub g: u8,
    pub b: u8,
}

/// One decoded texture pixel: 8-bit RGB plus an alpha channel.
#[derive(Clone, Copy, Debug, PartialEq, Eq, Structural)]
pub struct Rgba {
    pub r: u8,
    pub g: u8,
    pub b: u8,
    pub a: u8,
}

impl Rgba {
    /// Drops the alpha channel, as the shading stage works on opaque colors.
    pub fn rgb(self) -> (c: Rgb)
        ensures
            c == (Rgb { r: self.r, g: self.g, b: self.b }),
    {
        Rgb { r: self.r, g: self.g, b: self.b }
    }
}

} // verus!
