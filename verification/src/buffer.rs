//! The pixel compositor: the RGBA output buffer and its coordinate mapping.

use vstd::prelude::*;

verus! {

/// Maps a grid coordinate to a flat buffer index: row-major, one entry per
/// cell, scaled by four when the buffer holds RGBA bytes.  Coordinates at or
/// past the edge get no index: writes outside the grid are rejected.
pub fn index_from_pos(x: u32, y: u32, width: u32, rgba: bool) -> (r: Option<usize>)
    requires
        width <= 32767,
    ensures
        (x >= width || y >= width) <==> r is None,
        (x < width && y < width && rgba) ==> r == Some((((x + y * width) * 4) as usize)),
        (x < width && y < width && !rgba) ==> r == Some(((x + y * width) as usize)),
        (x < width && y < width) ==> x + y * width < width * width,
{
    if x >= width || y >= width {
        return None;
    }
    assert(x + y * width < 1073741823 && x + y * width < width * width) by (nonlinear_arith)
        requires
            x < width,
            y < width,
            width <= 32767u32,
    ;
    let flat: usize = x as usize + y as usize * width as usize;
    if rgba {
        Some(flat * 4)
    } else {
        Some(flat)
    }
}

/// Two distinct in-grid coordinates never share a flat index.
pub proof fn lemma_grid_index_injective(width: int, x1: int, y1: int, x2: int, y2: int)
    requires
        0 <= x1 < width,
        0 <= y1 < width,
        0 <= x2 < width,
        0 <= y2 < width,
        x1 + y1 * width == x2 + y2 * width,
    ensures
        x1 == x2 && y1 == y2,
{
    if y1 < y2 {
        assert(x1 + y1 * width < (y1 + 1) * width) by (nonlinear_arith)
            requires
                x1 < width,
                0 <= y1,
        ;
        assert((y1 + 1) * width <= y2 * width) by (nonlinear_arith)
            requires
                y1 + 1 <= y2,
                0 <= width,
        ;
        assert(false);
    } else if y2 < y1 {
        assert(x2 + y2 * width < (y2 + 1) * width) by (nonlinear_arith)
            requires
                x2 < width,
                0 <= y2,
        ;
        assert((y2 + 1) * width <= y1 * width) by (nonlinear_arith)
            requires
                y2 + 1 <= y1,
                0 <= width,
        ;
        assert(false);
    }
}

/// The base color of a freshly allocated buffer: green 250, everything else
/// (red, blue, alpha) zero.
pub open spec fn base_byte(i: int) -> u8 {
    if i % 4 == 1 {
        250u8
    } else {
        0u8
    }
}

/// A square RGBA pixel buffer, row-major, four bytes per pixel.
pub struct PixelBuffer {
    pub width: u32,
    pub data: Vec<u8>,
}

impl PixelBuffer {
    /// The buffer holds exactly four bytes for each cell of the grid.
    pub open spec fn wf(self) -> bool {
        &&& self.width <= 32767
        &&& self.data@.len() == self.width * self.width * 4
    }

    /// The flat index of the alpha byte of pixel `(x, y)`.
    pub open spec fn alpha_index(self, x: int, y: int) -> int {
        (x + y * self.width) * 4 + 3
    }

    /// The alpha byte of pixel `(x, y)`.
    pub open spec fn alpha_at(self, x: int, y: int) -> u8 {
        self.data@[self.alpha_index(x, y)]
    }

    /// The alpha index of an in-grid pixel is a valid index of `data`, is
    /// the only alpha index of that pixel, and leaves the channel bytes
    /// (index not 3 modulo 4) untouched.
    pub proof fn lemma_alpha_index(self, x: int, y: int)
        requires
            self.wf(),
            0 <= x < self.width,
            0 <= y < self.width,
        ensures
            0 <= self.alpha_index(x, y) < self.data@.len(),
            self.alpha_index(x, y) % 4 == 3,
            forall|x2: int, y2: int|
                0 <= x2 < self.width && 0 <= y2 < self.width && (x2 != x || y2 != y)
                    ==> self.alpha_index(x2, y2) != self.alpha_index(x, y),
    {
        let w = self.width as int;
        assert(x + y * w < w * w) by (nonlinear_arith)
            requires
                0 <= x < w,
                0 <= y < w,
        ;
        assert(0 <= y * w) by (nonlinear_arith)
            requires
                0 <= y,
                0 <= w,
        ;
        assert(((x + y * w) * 4 + 3) % 4 == 3) by (nonlinear_arith)
            requires
                0 <= x + y * w,
        ;
        assert forall|x2: int, y2: int|
            0 <= x2 < w && 0 <= y2 < w && (x2 != x || y2 != y) implies self.alpha_index(x2, y2)
            != self.alpha_index(x, y) by {
            if self.alpha_index(x2, y2) == self.alpha_index(x, y) {
                assert(x2 + y2 * w == x + y * w);
                lemma_grid_index_injective(w, x2, y2, x, y);
            }
        }
    }

    /// Allocates a `width` by `width` buffer filled with the base color.
    pub fn new(width: u32) -> (r: PixelBuffer)
        requires
            width <= 32767,
        ensures
            r.wf(),
            r.width == width,
            forall|i: int| 0 <= i < r.data@.len() ==> r.data@[i] == base_byte(i),
    {
        assert(width * width * 4 <= 32767u32 * 32767 * 4) by (nonlinear_arith)
            requires
                width <= 32767u32,
        ;
        let total: usize = width as usize * width as usize * 4;
        let mut data: Vec<u8> = Vec::new();
        let mut i: usize = 0;
        while i < total
            invariant
                i <= total,
                data@.len() == i,
                forall|j: int| 0 <= j < i ==> data@[j] == base_byte(j),
            decreases total - i,
        {
            if i % 4 == 1 {
                data.push(250);
            } else {
                data.push(0);
            }
            i = i + 1;
        }
        PixelBuffer { width, data }
    }

    /// Writes `value` into the alpha byte of pixel `(x, y)`; a coordinate
    /// outside the grid is rejected and the buffer is left as it was.
    pub fn set_alpha(&mut self, x: u32, y: u32, value: u8)
        requires
            old(self).wf(),
        ensures
            final(self).wf(),
            final(self).width == old(self).width,
            (x < old(self).width && y < old(self).width) ==> final(self).data@ == old(
                self,
            ).data@.update(old(self).alpha_index(x as int, y as int), value),
            !(x < old(self).width && y < old(self).width) ==> final(self).data@ == old(
                self,
            ).data@,
    {
        match index_from_pos(x, y, self.width, true) {
            Some(idx) => {
                proof {
                    self.lemma_alpha_index(x as int, y as int);
                    assert((x + y * self.width) * 4 < 4294967296) by (nonlinear_arith)
                        requires
                            x < self.width,
                            y < self.width,
                            self.width <= 32767u32,
                    ;
                    assert(idx == (x + y * self.width) * 4);
                    assert(idx + 3 == self.alpha_index(x as int, y as int));
                }
                let slot: usize = idx + 3;
                self.data.set(slot, value);
            },
            None => {},
        }
    }
}

} // verus!
