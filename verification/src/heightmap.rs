//! The heightmap builder: decoding packed RGB elevation samples into a
//! dense grid of exaggerated terrain heights.
//!
//! A source pixel packs a signed elevation across its red and green bytes,
//! with blue as a fractional byte: `r*256 + g + b/256 - 32768`.  The grid
//! keeps that value in Q8 fixed point (scaled by 256), so the decode is
//! exact integer arithmetic.

use vstd::prelude::*;

verus! {

/// The decoded elevation of one source pixel, in Q8 fixed point:
/// `256 * (r*256 + g + b/256 - 32768)`.
pub open spec fn decoded_q8(r: u8, g: u8, b: u8) -> int {
    r * 65536 + g * 256 + b - 8388608
}

/// The height the grid stores for a decoded elevation, in Q8 fixed point:
/// elevations at or below 8 are flattened to 0, anything above is scaled by
/// 10 to exaggerate relief.
pub open spec fn stored_q8(decoded: int) -> int {
    if decoded > 2048 {
        decoded * 10
    } else {
        0
    }
}

/// The height sample the ray tracer reads from a cell: the whole-unit part
/// of the Q8 height, saturated into a byte.
pub open spec fn sat_height(q: int) -> u8 {
    if q >= 65280 {
        255u8
    } else if q < 0 {
        0u8
    } else {
        (q / 256) as u8
    }
}

/// Decodes one source pixel's red, green and blue bytes into a Q8
/// elevation.
pub fn pixeldata_to_height(r: u8, g: u8, b: u8) -> (h: i64)
    ensures
        h == decoded_q8(r, g, b),
{
    r as i64 * 65536 + g as i64 * 256 + b as i64 - 8388608
}

/// A dense, row-major grid of Q8 terrain heights.
pub struct Heightmap {
    pub cells: Vec<i64>,
}

impl Heightmap {
    /// Every cell holds a stored height: non-negative, at most the
    /// largest decodable elevation scaled by 10.
    pub open spec fn wf(self) -> bool {
        forall|i: int| 0 <= i < self.cells@.len() ==> 0 <= #[trigger] self.cells@[i] <= 83886070
    }

    /// No cell rises to the initial horizon: such a grid can never produce
    /// an echo.
    pub open spec fn is_flat(self) -> bool {
        forall|i: int| 0 <= i < self.cells@.len() ==> sat_height(#[trigger] self.cells@[i] as int) < 10
    }
}

/// Reads the height sample under a Q16.16 position: nothing when the
/// position's cell lies at or past the grid edge, or when its index runs
/// past the loaded cells (the loop-termination signal for a ray that
/// leaves the grid or outlives it).
pub fn pixel_data_at(x: i64, y: i64, width: u32, heightmap: &Heightmap) -> (r: Option<u8>)
    requires
        width <= 32767,
        0 <= x,
        0 <= y,
        heightmap.wf(),
    ensures
        r is Some <==> (crate::fixed::cell_of(x as int) < width && crate::fixed::cell_of(y as int)
            < width && crate::fixed::cell_of(x as int) + crate::fixed::cell_of(y as int) * width
            < heightmap.cells@.len()),
        r is Some ==> r == Some(
            sat_height(
                heightmap.cells@[crate::fixed::cell_of(x as int) + crate::fixed::cell_of(y as int)
                    * width] as int,
            ),
        ),
{
    let cxi: i64 = x / 65536;
    let cyi: i64 = y / 65536;
    assert(cxi == crate::fixed::cell_of(x as int) && cxi >= 0);
    assert(cyi == crate::fixed::cell_of(y as int) && cyi >= 0);
    if cxi >= width as i64 || cyi >= width as i64 {
        return None;
    }
    let cx: u32 = cxi as u32;
    let cy: u32 = cyi as u32;
    let idx = match crate::buffer::index_from_pos(cx, cy, width, false) {
        Some(v) => v,
        None => {
            return None;
        },
    };
    assert(width * width <= 1073741824) by (nonlinear_arith)
        requires
            width <= 32767u32,
    ;
    assert(idx == cx + cy * width);
    if idx >= heightmap.cells.len() {
        return None;
    }
    let q = heightmap.cells[idx];
    if q >= 65280 {
        Some(255)
    } else {
        Some((q / 256) as u8)
    }
}

} // verus!
