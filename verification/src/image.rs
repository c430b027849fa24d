//! Images as files: the plain-text pixmap format.

use vstd::prelude::*;

verus! {

/// The decimal digits of `n`, as bytes.
pub open spec fn decimal(n: nat) -> Seq<u8>
    decreases n,
{
    if n < 10 {
        seq![(48 + n) as u8]
    } else {
        decimal(n / 10).push((48 + n % 10) as u8)
    }
}

/// One pixel as text: its three channels in decimal, a space after each.
pub open spec fn pixel_text(p: [u8; 3]) -> Seq<u8> {
    decimal(p[0] as nat).push(32) + decimal(p[1] as nat).push(32) + decimal(p[2] as nat).push(32)
}

/// The pixels `start .. start + n` as text, one after the other.
pub open spec fn run_text(pixels: Seq<[u8; 3]>, start: int, n: nat) -> Seq<u8>
    decreases n,
{
    if n == 0 {
        Seq::empty()
    } else {
        run_text(pixels, start, (n - 1) as nat) + pixel_text(pixels[start + n - 1])
    }
}

/// The first `rows` rows of an image that is `width` pixels wide, as text:
/// each row is the run of its pixels and a line feed.
pub open spec fn rows_text(pixels: Seq<[u8; 3]>, width: nat, rows: nat) -> Seq<u8>
    decreases rows,
{
    if rows == 0 {
        Seq::empty()
    } else {
        rows_text(pixels, width, (rows - 1) as nat) + run_text(pixels, (rows - 1) * width, width).push(
            10,
        )
    }
}

/// The head of a pixmap file: the magic number `P3`, the width and the
/// height, and the largest channel value, 255.
pub open spec fn header_text(width: nat, height: nat) -> Seq<u8> {
    seq![80u8, 51, 10] + decimal(width).push(32) + decimal(height).push(10) + seq![50u8, 53, 53, 10]
}

/// An image that can be made empty and turned into the bytes of a file.
pub trait Image: Sized {
    /// The width and the height.
    spec fn dimensions(&self) -> (nat, nat);

    /// An image of the given size that holds no pixels yet.
    fn new(width: usize, height: usize) -> (r: Self)
        ensures
            r.dimensions() == (width as nat, height as nat),
    ;

    /// Whether the image holds a pixel for every place, at the least.
    spec fn filled(&self) -> bool;

    /// What the file of the image holds.
    spec fn file(&self) -> Seq<u8>;

    /// The bytes of the file of the image.
    fn encode(&self) -> (r: Vec<u8>)
        requires
            self.filled(),
        ensures
            r@ == self.file(),
    ;
}

/// A plain-text pixmap: rows of pixels, the top row first.
pub struct PPM {
    pub width: usize,
    pub height: usize,
    pub pixel_data: Vec<[u8; 3]>,
}

/// Appends the decimal digits of `n`.
fn push_decimal(out: &mut Vec<u8>, n: usize)
    ensures
        final(out)@ == old(out)@ + decimal(n as nat),
    decreases n,
{
    if n >= 10 {
        push_decimal(out, n / 10);
    }
    let digit: u8 = (n % 10) as u8;
    out.push(48 + digit);
    proof {
        if n >= 10 {
            assert(final(out)@ =~= old(out)@ + decimal(n as nat));
        } else {
            assert(final(out)@ =~= old(out)@ + decimal(n as nat));
        }
    }
}

/// Appends one pixel as text.
fn push_pixel(out: &mut Vec<u8>, p: [u8; 3])
    ensures
        final(out)@ == old(out)@ + pixel_text(p),
{
    push_decimal(out, p[0] as usize);
    out.push(32);
    push_decimal(out, p[1] as usize);
    out.push(32);
    push_decimal(out, p[2] as usize);
    out.push(32);
    proof {
        assert(final(out)@ =~= old(out)@ + pixel_text(p));
    }
}

impl Image for PPM {
    open spec fn dimensions(&self) -> (nat, nat) {
        (self.width as nat, self.height as nat)
    }

    fn new(width: usize, height: usize) -> (r: PPM)
        ensures
            r.pixel_data@.len() == 0,
    {
        PPM { width, height, pixel_data: Vec::new() }
    }

    open spec fn filled(&self) -> bool {
        self.pixel_data.len() >= self.width * self.height
    }

    open spec fn file(&self) -> Seq<u8> {
        header_text(self.width as nat, self.height as nat) + rows_text(
            self.pixel_data@,
            self.width as nat,
            self.height as nat,
        )
    }

    fn encode(&self) -> (r: Vec<u8>) {
        let mut out: Vec<u8> = Vec::new();
        out.push(80);
        out.push(51);
        out.push(10);
        push_decimal(&mut out, self.width);
        out.push(32);
        push_decimal(&mut out, self.height);
        out.push(10);
        out.push(50);
        out.push(53);
        out.push(53);
        out.push(10);
        let ghost head = header_text(self.width as nat, self.height as nat);
        assert(out@ =~= head);
        let mut y: usize = 0;
        while y < self.height
            invariant
                y <= self.height,
                self.filled(),
                out@ == head + rows_text(self.pixel_data@, self.width as nat, y as nat),
            decreases self.height - y,
        {
            let ghost before = out@;
            proof {
                assert(y * self.width + self.width <= self.width * self.height) by (nonlinear_arith)
                    requires
                        y < self.height,
                ;
                assert(self.width * self.height <= self.pixel_data.len());
            }
            let start: usize = y * self.width;
            let mut x: usize = 0;
            while x < self.width
                invariant
                    x <= self.width,
                    start + self.width <= self.pixel_data.len(),
                    out@ == before + run_text(self.pixel_data@, start as int, x as nat),
                decreases self.width - x,
            {
                let ghost row = out@;
                push_pixel(&mut out, self.pixel_data[start + x]);
                proof {
                    assert(out@ =~= before + run_text(self.pixel_data@, start as int, (x + 1) as nat));
                }
                x += 1;
            }
            out.push(10);
            proof {
                assert(out@ =~= head + rows_text(self.pixel_data@, self.width as nat, (y + 1) as nat));
            }
            y += 1;
        }
        out
    }
}

} // verus!
