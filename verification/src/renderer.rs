//! Driver-side types: the render configuration, pixel addressing for the
//! output buffer, and the small vocabulary a display loop exchanges with
//! its caller.

use vstd::prelude::*;

use crate::rgb::{rgb_vec_to_u8_slice, Rgb};

verus! {

/// Render configuration: an output-name prefix and the samples per pixel.
pub struct Renderer {
    pub prefix: String,
    pub spp: i32,
}

/// An axis-aligned pixel-space rectangle.
#[derive(Clone, Copy, PartialEq, Eq, Structural, Default, Debug)]
pub struct XYBound<T> {
    pub min_x: T,
    pub max_x: T,
    pub min_y: T,
    pub max_y: T,
}

/// What a display loop should do after a frame.
#[derive(Clone, Copy, PartialEq, Eq, Structural, Debug)]
pub enum Control {
    Continue,
    Stop,
}

/// The clamped index of pixel `(x, y)` in a row-major buffer.
pub open spec fn spec_buffer_index(height: int, width: int, x: int, y: int) -> int {
    let xc = if x <= width {
        x
    } else {
        width
    };
    let yc = if y <= height {
        y
    } else {
        height
    };
    yc * width + xc
}

pub fn get_buffer_index(height: usize, width: usize, x: usize, y: usize) -> (r: usize)
    requires
        (height as int + 1) * (width as int + 1) <= usize::MAX,
    ensures
        r == spec_buffer_index(height as int, width as int, x as int, y as int),
{
    let xc = if x <= width {
        x
    } else {
        width
    };
    let yc = if y <= height {
        y
    } else {
        height
    };
    proof {
        assert((yc as int) * (width as int) + (xc as int) <= (height as int + 1) * (
        width as int + 1)) by (nonlinear_arith)
            requires
                0 <= yc as int <= height as int,
                0 <= xc as int <= width as int,
                0 <= width as int,
        ;
    }
    yc * width + xc
}

/// A finished image a writer can read out: pixels and dimensions.
pub trait Rasterizable {
    fn data(&self) -> &Vec<Rgb>;

    fn size(&self) -> (u32, u32);
}

/// The plain pixel-buffer rasterizer the renderer fills.
pub struct BufRasterizer {
    pub width: u32,
    pub height: u32,
    pub data: Vec<Rgb>,
}

impl Rasterizable for BufRasterizer {
    fn data(&self) -> &Vec<Rgb> {
        &self.data
    }

    fn size(&self) -> (u32, u32) {
        (self.width, self.height)
    }
}

impl BufRasterizer {
    /// The packed byte image.
    pub fn u8_data(&self) -> (r: Vec<u8>)
        requires
            self.data@.len() * 3 <= usize::MAX,
        ensures
            r@.len() == 3 * self.data@.len(),
            forall|i: int|
                0 <= i < self.data@.len() ==> {
                    &&& r@[3 * i] == (#[trigger] self.data@[i]).0
                    &&& r@[3 * i + 1] == self.data@[i].1
                    &&& r@[3 * i + 2] == self.data@[i].2
                },
    {
        rgb_vec_to_u8_slice(&self.data)
    }
}

} // verus!
