//! The bookkeeping of a render on the processor: which pixel a flat index
//! names, which random stream it gets, which block of indices a worker
//! takes, and how the finished colours are laid out.

use vstd::prelude::*;
use crate::renderer::Renderer;

verus! {

/// The factor of the per-pixel seed.
pub const SEED_SCALE: u32 = 987612486;

/// The offset of the per-pixel seed.
pub const SEED_OFFSET: u32 = 87636354;

/// The value of the alpha channel of every pixel: opaque.
pub const OPAQUE: u8 = 255;

/// The seed of the random stream of the pixel with flat index `index`: the
/// index, cut to its low 32 bits, plus the offset, times the scale, both
/// wrapping around at 32 bits.
pub open spec fn seed_of(index: usize) -> u32 {
    SEED_SCALE.wrapping_mul((index as u32).wrapping_add(SEED_OFFSET))
}

/// The seed of the random stream of a pixel. It depends on the index of the
/// pixel and on nothing else.
pub fn pixel_seed(index: usize) -> (r: u32)
    ensures
        r == seed_of(index),
{
    let low: u32 = #[verifier::truncate]
    (index as u32);
    SEED_SCALE.wrapping_mul(low.wrapping_add(SEED_OFFSET))
}

/// One step of the generator: the state after it.
pub open spec fn shifted(x: u32) -> u32 {
    let a = x ^ (x << 13);
    let b = a ^ (a >> 17);
    b ^ (b << 5)
}

/// Advances a random stream by one step and returns the new state, which is
/// also the number drawn.
pub fn xor_shift(state: &mut u32) -> (r: u32)
    ensures
        r == shifted(*old(state)),
        *final(state) == r,
{
    let mut x: u32 = *state;
    x ^= x << 13;
    x ^= x >> 17;
    x ^= x << 5;
    *state = x;
    x
}

/// The column and row of the pixel with flat index `index` in an image of
/// the given size: the column counts from the left, from 0, and the row from
/// the bottom, from 1 up to `height`, for the image is filled top row first.
pub fn pixel_position(index: usize, width: usize, height: usize) -> (r: (usize, usize))
    requires
        width > 0,
        index < width * height,
    ensures
        r.0 == index % width,
        r.1 == height - index / width,
        r.0 < width,
        1 <= r.1 <= height,
{
    proof {
        assert(index / width < height) by (nonlinear_arith)
            requires
                width > 0,
                index < width * height,
        ;
    }
    (index % width, height - index / width)
}

/// The number of pixels of an image, if it fits the machine.
pub fn pixel_count(width: usize, height: usize) -> (r: Option<usize>)
    ensures
        r.is_some() <==> width * height <= usize::MAX,
        r.is_some() ==> r.unwrap() == width * height,
{
    width.checked_mul(height)
}

/// The number of pixels that one block holds when `pixels` pixels are
/// shared out among `workers` workers: an equal share, and at least one.
pub fn block_size(pixels: usize, workers: usize) -> (r: usize)
    requires
        workers > 0,
    ensures
        r == if pixels / workers == 0 {
            1
        } else {
            pixels / workers
        },
        r > 0,
{
    let share: usize = pixels / workers;
    if share == 0 {
        1
    } else {
        share
    }
}

/// The indices of block `k`, as the first and the one past the last: blocks
/// of `size` indices each follow one another from 0, and the last one ends
/// with the pixels.
pub open spec fn block_span(k: int, size: int, pixels: int) -> (int, int) {
    (
        if k * size < pixels {
            k * size
        } else {
            pixels
        },
        if (k + 1) * size < pixels {
            (k + 1) * size
        } else {
            pixels
        },
    )
}

/// The first index of block `k` and the one past its last.
pub fn block_range(k: usize, size: usize, pixels: usize) -> (r: (usize, usize))
    requires
        size > 0,
    ensures
        r.0 == block_span(k as int, size as int, pixels as int).0,
        r.1 == block_span(k as int, size as int, pixels as int).1,
        r.0 <= r.1 <= pixels,
{
    let start: usize = match k.checked_mul(size) {
        Some(s) => if s < pixels {
            s
        } else {
            pixels
        },
        None => pixels,
    };
    let end: usize = if pixels - start > size {
        start + size
    } else {
        pixels
    };
    proof {
        assert((k + 1) * size == k * size + size) by (nonlinear_arith);
    }
    (start, end)
}

/// The block that holds the pixel with flat index `index`.
pub fn block_of(index: usize, size: usize) -> (r: usize)
    requires
        size > 0,
    ensures
        r == index / size,
{
    index / size
}

/// The blocks partition the pixels: every index lies in the block that
/// [`block_of`] names and in no other, and the blocks follow one another
/// without a gap.
pub proof fn law_blocks_partition(index: int, k: int, size: int, pixels: int)
    requires
        size > 0,
        0 <= index < pixels,
        0 <= k,
    ensures
        block_span(k, size, pixels).0 <= index < block_span(k, size, pixels).1 <==> k == index / size,
        block_span(k, size, pixels).1 == block_span(k + 1, size, pixels).0,
        block_span(0, size, pixels).0 == 0,
{
    assert(k * size <= index < (k + 1) * size <==> k == index / size) by (nonlinear_arith)
        requires
            size > 0,
            0 <= index,
            0 <= k,
    ;
}

/// The colours of an image as bytes, four per pixel: red, green, blue, and
/// an opaque alpha.
pub fn to_rgba(pixels: &Vec<[u8; 3]>) -> (r: Vec<u8>)
    requires
        pixels.len() * 4 <= usize::MAX,
    ensures
        r.len() == pixels.len() * 4,
        forall|i: int, c: int|
            0 <= i < pixels.len() && 0 <= c < 3 ==> r[4 * i + c] == #[trigger] pixels[i][c],
        forall|i: int| 0 <= i < pixels.len() ==> #[trigger] r[4 * i + 3] == OPAQUE,
{
    let mut out: Vec<u8> = Vec::new();
    let mut i: usize = 0;
    while i < pixels.len()
        invariant
            i <= pixels.len(),
            out.len() == i * 4,
            forall|j: int, c: int| 0 <= j < i && 0 <= c < 3 ==> out[4 * j + c] == #[trigger] pixels[j][c],
            forall|j: int| 0 <= j < i ==> #[trigger] out[4 * j + 3] == OPAQUE,
        decreases pixels.len() - i,
    {
        let p: [u8; 3] = pixels[i];
        out.push(p[0]);
        out.push(p[1]);
        out.push(p[2]);
        out.push(OPAQUE);
        i += 1;
    }
    out
}

/// The number of threads of the worker pool.
///
/// Calls `rayon::current_num_threads`. The number depends on the machine and
/// on how the pool was set up, so nothing is claimed of it.
#[verifier::external_body]
fn worker_threads() -> (r: usize) {
    rayon::current_num_threads()
}

/// Whether `size` is the block size for `pixels` pixels and some number of
/// workers.
pub open spec fn is_block_size(size: int, pixels: int) -> bool {
    exists|workers: int|
        workers > 0 && size == if #[trigger] (pixels / workers) == 0 {
            1
        } else {
            pixels / workers
        }
}

/// The block size for `pixels` pixels on this machine: an equal share for
/// each thread of the worker pool, and at least one pixel.
pub fn machine_block_size(pixels: usize) -> (r: usize)
    ensures
        r > 0,
        is_block_size(r as int, pixels as int),
{
    let threads: usize = worker_threads();
    let workers: usize = if threads == 0 {
        1
    } else {
        threads
    };
    let size: usize = block_size(pixels, workers);
    proof {
        assert(size == if (pixels as int / workers as int) == 0 {
            1
        } else {
            pixels as int / workers as int
        });
    }
    size
}

/// The image that a render hands out, from the colour of each pixel in the
/// order of the flat index: four bytes per pixel, or nothing where `pixels`
/// does not hold one colour for each pixel of the image.
pub fn render_scene(renderer: &Renderer, pixels: &Vec<[u8; 3]>) -> (r: Option<Vec<u8>>)
    ensures
        r.is_some() <==> pixels.len() == renderer.options.output_image_dimensions.0
            * renderer.options.output_image_dimensions.1 && pixels.len() * 4 <= usize::MAX,
        r.is_some() ==> {
            &&& r.unwrap().len() == pixels.len() * 4
            &&& forall|i: int, c: int|
                0 <= i < pixels.len() && 0 <= c < 3 ==> r.unwrap()[4 * i + c] == #[trigger] pixels[i][c]
            &&& forall|i: int| 0 <= i < pixels.len() ==> #[trigger] r.unwrap()[4 * i + 3] == OPAQUE
        },
{
    let width: usize = renderer.options.output_image_dimensions.0;
    let height: usize = renderer.options.output_image_dimensions.1;
    match pixel_count(width, height) {
        Some(count) => {
            if pixels.len() == count && count <= usize::MAX / 4 {
                Some(to_rgba(pixels))
            } else {
                None
            }
        },
        None => None,
    }
}

} // verus!
