//! Textures: grids of colours that a surface looks its colour up in.

use vstd::prelude::*;

verus! {

/// A bitmap as it was decoded from a file.
pub struct BMP {
    pub width: u32,
    pub height: u32,
    pub pixel_data: Vec<[u8; 3]>,
}

/// A grid of colours, one row after the other.
#[derive(Clone, Debug)]
pub struct Texture {
    pub width: usize,
    pub height: usize,
    pub pixel_data: Vec<[u8; 3]>,
}

impl Texture {
    /// The place in the pixel buffer that the texel in column `i` of row
    /// `j` is read from: `i + j * width`, wrapped around at the length of
    /// the buffer.
    pub open spec fn texel_index(self, i: int, j: int) -> int {
        (i + j * self.width) % (self.pixel_data.len() as int)
    }

    /// The texture that holds a decoded bitmap.
    pub fn load_from_bmp(bmp: BMP) -> (r: Texture)
        ensures
            r.width == bmp.width,
            r.height == bmp.height,
            r.pixel_data@ == bmp.pixel_data@,
    {
        Texture {
            width: bmp.width as usize,
            height: bmp.height as usize,
            pixel_data: bmp.pixel_data,
        }
    }

    /// The colour of the texel in column `i` of row `j`, where texels
    /// outside the buffer wrap around.
    pub fn color_at(&self, i: i32, j: i32) -> (r: [u8; 3])
        requires
            self.pixel_data.len() > 0,
        ensures
            0 <= self.texel_index(i as int, j as int) < self.pixel_data.len(),
            r == self.pixel_data[self.texel_index(i as int, j as int)],
    {
        let len: i128 = self.pixel_data.len() as i128;
        let width: i128 = self.width as i128;
        proof {
            assert(-0x8000_0000 * 0x1_0000_0000_0000_0000 <= j * width <= 0x8000_0000
                * 0x1_0000_0000_0000_0000) by (nonlinear_arith)
                requires
                    -0x8000_0000 <= j <= 0x8000_0000,
                    0 <= width <= 0x1_0000_0000_0000_0000,
            ;
        }
        let flat: i128 = i as i128 + j as i128 * width;
        let wrapped: i128 = if flat >= 0 {
            flat % len
        } else {
            let back: i128 = (-flat) % len;
            proof {
                lemma_wrap_negative(flat as int, len as int);
            }
            if back == 0 {
                0
            } else {
                len - back
            }
        };
        self.pixel_data[wrapped as usize]
    }
}

/// The remainder of a negative number, from the remainder of its opposite.
pub proof fn lemma_wrap_negative(x: int, n: int)
    requires
        x < 0,
        n > 0,
    ensures
        x % n == if (-x) % n == 0 {
            0
        } else {
            n - (-x) % n
        },
{
    let q = (-x) / n;
    let r = (-x) % n;
    assert(-x == q * n + r) by (nonlinear_arith)
        requires
            n > 0,
            q == (-x) / n,
            r == (-x) % n,
    ;
    if r == 0 {
        assert(x == (-q) * n) by (nonlinear_arith)
            requires
                -x == q * n + r,
                r == 0,
        ;
        vstd::arithmetic::div_mod::lemma_fundamental_div_mod_converse(x, n, -q, 0);
    } else {
        assert(x == (-q - 1) * n + (n - r)) by (nonlinear_arith)
            requires
                -x == q * n + r,
        ;
        vstd::arithmetic::div_mod::lemma_fundamental_div_mod_converse(x, n, -q - 1, n - r);
    }
}

} // verus!
