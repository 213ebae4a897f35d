//! The discrete parts of textures: a constant texture over any color type,
//! the parity rule of the checkerboard, and texel lookup in a decoded RGB
//! raster.
use vstd::prelude::*;

verus! {

/// A texture that has the same color everywhere.
#[derive(Debug)]
pub struct SolidColorTexture<C> {
    pub albedo: C,
}

impl<C: Copy> SolidColorTexture<C> {
    pub fn new(color: C) -> (r: SolidColorTexture<C>)
        ensures
            r.albedo == color,
    {
        SolidColorTexture { albedo: color }
    }

    /// The color at any surface point.
    pub fn value(&self) -> (r: C)
        ensures
            r == self.albedo,
    {
        self.albedo
    }
}

/// A checkerboard square is even when the sum of its two cell indices is.
pub fn checker_is_even(u_cell: i32, v_cell: i32) -> (r: bool)
    ensures
        r == ((u_cell as int + v_cell as int) % 2 == 0),
{
    let s: i64 = u_cell as i64 + v_cell as i64;
    let m: i64 = s % 2;
    m == 0
}

/// Offset in the byte raster of the texel that `(i, j)` selects once both
/// are clamped into the image.
pub open spec fn texel_offset(width: int, height: int, i: int, j: int) -> int {
    let x = if i < width - 1 { i } else { width - 1 };
    let y = if j < height - 1 { j } else { height - 1 };
    3 * (y * width + x)
}

/// A decoded image: `height` rows of `width` texels, three bytes (red,
/// green, blue) each, row by row from the top.
#[derive(Debug)]
pub struct ImageTexture {
    pub width: u32,
    pub height: u32,
    pub data: Vec<u8>,
}

impl ImageTexture {
    /// The raster holds exactly three bytes per texel.
    pub open spec fn wf(&self) -> bool {
        self.data@.len() == 3 * self.width * self.height
    }

    /// A texture over a decoded raster; `None` when `data` does not hold
    /// three bytes for each of the `width * height` texels.
    pub fn from_rgb(width: u32, height: u32, data: Vec<u8>) -> (r: Option<ImageTexture>)
        ensures
            r is Some <==> data@.len() == 3 * width * height,
            r matches Some(t) ==> t.width == width && t.height == height && t.data@ == data@,
    {
        let w = width as u64;
        let h = height as u64;
        assert(w * h <= u32::MAX * u32::MAX) by (nonlinear_arith)
            requires
                w <= u32::MAX,
                h <= u32::MAX,
        ;
        let texels = w * h;
        assert(3 * texels == 3 * width * height) by (nonlinear_arith)
            requires
                texels == w * h,
                w == width,
                h == height,
        ;
        let n = data.len();
        if texels > u64::MAX / 3 {
            assert(3 * texels > u64::MAX);
            assert(n <= usize::MAX);
            return None;
        }
        if n as u64 != 3 * texels {
            return None;
        }
        Some(ImageTexture { width, height, data })
    }

    /// The texel at column `i` and row `j`, each clamped to the last one;
    /// `None` for an image without texels.
    pub fn texel(&self, i: u32, j: u32) -> (r: Option<(u8, u8, u8)>)
        requires
            self.wf(),
        ensures
            r is None <==> self.width == 0 || self.height == 0,
            r matches Some(c) ==> {
                let o = texel_offset(self.width as int, self.height as int, i as int, j as int);
                c == (self.data@[o], self.data@[o + 1], self.data@[o + 2])
            },
    {
        if self.width == 0 || self.height == 0 {
            return None;
        }
        let x: u32 = if i < self.width - 1 {
            i
        } else {
            self.width - 1
        };
        let y: u32 = if j < self.height - 1 {
            j
        } else {
            self.height - 1
        };
        let w = self.width as usize;
        let h = self.height as usize;
        let xs = x as usize;
        let ys = y as usize;
        let n = self.data.len();
        assert(3 * (ys * w + xs) + 2 < n) by (nonlinear_arith)
            requires
                xs < w,
                ys < h,
                n == 3 * w * h,
        ;
        let o: usize = 3 * (ys * w + xs);
        Some((self.data[o], self.data[o + 1], self.data[o + 2]))
    }
}

} // verus!
