//! The pixel schedule: pixel indices `0..width * height` are handed to the
//! workers, and each index names one pixel, row by row from the top left.
use vstd::prelude::*;
use vstd::arithmetic::div_mod::{lemma_fundamental_div_mod, lemma_fundamental_div_mod_converse};
use crate::config::OutputQuality;

verus! {

/// The pixel that index `i` names in an image `width` pixels wide.
pub open spec fn pixel_at(i: int, width: int) -> (int, int) {
    (i % width, i / width)
}

impl OutputQuality {
    /// Number of pixels in the image.
    pub fn pixel_count(&self) -> (r: u64)
        ensures
            r == self.image_width * self.image_height,
    {
        assert(self.image_width * self.image_height <= u32::MAX * u32::MAX) by (nonlinear_arith);
        self.image_width as u64 * self.image_height as u64
    }
}

/// Column and row of the pixel with index `index`.
pub fn pixel_of(index: u64, width: u32, height: u32) -> (r: (u32, u32))
    requires
        width > 0,
        index < width * height,
    ensures
        (r.0 as int, r.1 as int) == pixel_at(index as int, width as int),
        r.0 < width,
        r.1 < height,
{
    proof {
        let i = index as int;
        let w = width as int;
        let h = height as int;
        lemma_fundamental_div_mod(i, w);
        assert(i / w < h) by (nonlinear_arith)
            requires
                i < w * h,
                w > 0,
                i == w * (i / w) + i % w,
                0 <= i % w < w,
        ;
    }
    ((index % width as u64) as u32, (index / width as u64) as u32)
}

/// The schedule covers the image exactly once: every index below
/// `width * height` names a pixel of the image, every pixel is named by
/// the index `y * width + x`, and distinct indices name distinct pixels.
pub proof fn lemma_schedule_covers_once(width: int, height: int)
    requires
        width > 0,
        height >= 0,
    ensures
        forall|i: int|
            0 <= i < width * height ==> {
                let p = #[trigger] pixel_at(i, width);
                0 <= p.0 < width && 0 <= p.1 < height
            },
        forall|x: int, y: int|
            0 <= x < width && 0 <= y < height ==> 0 <= #[trigger] (y * width + x) < width * height
                && pixel_at(y * width + x, width) == (x, y),
        forall|i: int, j: int|
            0 <= i < width * height && 0 <= j < width * height && i != j ==> #[trigger] pixel_at(
                i,
                width,
            ) != #[trigger] pixel_at(j, width),
{
    assert forall|i: int| 0 <= i < width * height implies {
        let p = #[trigger] pixel_at(i, width);
        0 <= p.0 < width && 0 <= p.1 < height
    } by {
        lemma_fundamental_div_mod(i, width);
        assert(0 <= i / width < height) by (nonlinear_arith)
            requires
                0 <= i < width * height,
                width > 0,
                i == width * (i / width) + i % width,
                0 <= i % width < width,
        ;
    }
    assert forall|x: int, y: int| 0 <= x < width && 0 <= y < height implies 0 <= #[trigger] (y
        * width + x) < width * height && pixel_at(y * width + x, width) == (x, y) by {
        let i = y * width + x;
        assert(0 <= i < width * height) by (nonlinear_arith)
            requires
                0 <= x < width,
                0 <= y < height,
                i == y * width + x,
        ;
        lemma_fundamental_div_mod_converse(i, width, y, x);
    }
    assert forall|i: int, j: int|
        0 <= i < width * height && 0 <= j < width * height && i != j implies #[trigger] pixel_at(
        i,
        width,
    ) != #[trigger] pixel_at(j, width) by {
        lemma_fundamental_div_mod(i, width);
        lemma_fundamental_div_mod(j, width);
    }
}

} // verus!
