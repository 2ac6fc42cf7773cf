//! The pixel buffer that both renderers fill and return.

use vstd::prelude::*;

verus! {

/// One pixel: red, green and blue channels, one byte each.
#[derive(Clone, Copy, Debug, PartialEq, Eq, Structural)]
pub struct Rgb {
    pub r: u8,
    pub g: u8,
    pub b: u8,
}

/// A `width` x `height` raster of RGB pixels, stored in row-major order:
/// the pixel at column `x`, row `y` sits at index `y * width + x`.
pub struct PixelBuffer {
    pub width: u32,
    pub height: u32,
    pub data: Vec<Rgb>,
}

impl PixelBuffer {
    /// The buffer holds exactly one pixel per coordinate pair.
    pub open spec fn wf(self) -> bool {
        self.data.len() == self.width * self.height
    }

    /// The pixel stored at column `x`, row `y`.
    pub open spec fn pixel(self, x: int, y: int) -> Rgb {
        self.data[y * self.width + x]
    }

    /// Reads the pixel at column `x`, row `y`.
    pub fn get(&self, x: u32, y: u32) -> (c: Rgb)
        requires
            self.wf(),
            x < self.width,
            y < self.height,
        ensures
            c == self.pixel(x as int, y as int),
    {
        proof {
            assert((y as int) * (self.width as int) + (x as int)
                < (self.width as int) * (self.height as int)) by (nonlinear_arith)
                requires
                    (x as int) < (self.width as int),
                    (y as int) < (self.height as int),
                    0 <= (x as int),
                    0 <= (y as int);
        }
        self.data[(y as usize) * (self.width as usize) + (x as usize)]
    }

    /// The width of the image in pixels.
    pub fn width_px(&self) -> (w: u32)
        ensures
            w == self.width,
    {
        self.width
    }

    /// The height of the image in pixels.
    pub fn height_px(&self) -> (h: u32)
        ensures
            h == self.height,
    {
        self.height
    }
}

} // verus!
