//! The data of a scene as a compute pipeline takes it: flat buffers of
//! 32-bit words with a fixed stride per entry, each stride a multiple of 16
//! bytes, handed over as bytes in the byte order of the machine.

use vstd::prelude::*;
use crate::bvh::Node;
use crate::renderer::Renderer;
use crate::scene::{Material, Triangle};

verus! {

/// The words that one node takes: 32 bytes.
pub const NODE_STRIDE: usize = 8;

/// The words that one triangle takes: 112 bytes.
pub const TRIANGLE_STRIDE: usize = 28;

/// Word `k` of a node: the lower bounds, the first triangle or child, the
/// upper bounds, the number of triangles.
pub open spec fn node_word(node: Node, k: int) -> u32 {
    if 0 <= k < 3 {
        node.bounds_min.data[k].bits
    } else if k == 3 {
        node.first_tri_or_child
    } else if 4 <= k < 7 {
        node.bounds_max.data[k - 4].bits
    } else {
        node.num_tris
    }
}

/// Word `k` of a triangle: for each corner in turn its position, its normal
/// and its texture coordinate, eight words a corner; then the low 32 bits of
/// the material index; then zeros up to the stride.
pub open spec fn triangle_word(tri: Triangle, k: int) -> u32 {
    if 0 <= k < 24 {
        let vertex = tri.vertices[k / 8];
        let field = k % 8;
        if field < 3 {
            vertex.position[field].bits
        } else if field < 6 {
            vertex.normal[field - 3].bits
        } else {
            vertex.tex_coord[field - 6].bits
        }
    } else if k == 24 {
        tri.material_id as u32
    } else {
        0
    }
}

/// The words that one material takes: 64 bytes.
pub const MATERIAL_STRIDE: usize = 16;

/// Word `k` of a material: the base colour and the transmission, the
/// specular tint and the index of refraction, the emission and the
/// roughness, then the metallic value and the two texture indices, and a
/// zero up to the stride.
pub open spec fn material_word(m: Material, k: int) -> u32 {
    if 0 <= k < 3 {
        m.base_color.data[k].bits
    } else if k == 3 {
        m.transmission.bits
    } else if 4 <= k < 7 {
        m.specular_tint.data[k - 4].bits
    } else if k == 7 {
        m.ior.bits
    } else if 8 <= k < 11 {
        m.emission.data[k - 8].bits
    } else if k == 11 {
        m.roughness.bits
    } else if k == 12 {
        m.metallic.bits
    } else if k == 13 {
        m.base_color_tex_id as u32
    } else if k == 14 {
        m.emission_tex_id as u32
    } else {
        0
    }
}

/// Byte `k` of a buffer of words with the low byte of each word first.
pub open spec fn low_first(words: Seq<u32>, k: int) -> u8 {
    ((words[k / 4] >> (8 * (k % 4)) as u32) & 0xff) as u8
}

/// Byte `k` of a buffer of words with the high byte of each word first.
pub open spec fn high_first(words: Seq<u32>, k: int) -> u8 {
    ((words[k / 4] >> (8 * (3 - k % 4)) as u32) & 0xff) as u8
}

/// Whether `bytes` holds the words `words` in the byte order of some
/// machine: four bytes a word, either every word low byte first or every
/// word high byte first.
pub open spec fn holds_words(bytes: Seq<u8>, words: Seq<u32>) -> bool {
    &&& bytes.len() == 4 * words.len()
    &&& {
        ||| forall|k: int| 0 <= k < bytes.len() ==> #[trigger] bytes[k] == low_first(words, k)
        ||| forall|k: int| 0 <= k < bytes.len() ==> #[trigger] bytes[k] == high_first(words, k)
    }
}

/// The bytes of a buffer of words as they lie in memory.
///
/// Calls `bytemuck::cast_slice` from `u32` to `u8`, which views the same
/// memory as four times as many bytes and cannot fail for this pair of
/// types. The byte order within a word is that of the machine.
#[verifier::external_body]
fn words_to_bytes(words: &Vec<u32>) -> (r: Vec<u8>)
    ensures
        holds_words(r@, words@),
{
    let bytes: &[u8] = bytemuck::cast_slice(words.as_slice());
    bytes.to_vec()
}

/// The words of the node buffer: [`NODE_STRIDE`] words a node.
pub fn node_words(nodes: &Vec<Node>) -> (r: Vec<u32>)
    requires
        NODE_STRIDE * nodes.len() <= usize::MAX,
    ensures
        r.len() == NODE_STRIDE * nodes.len(),
        forall|i: int, k: int|
            0 <= i < nodes.len() && 0 <= k < NODE_STRIDE ==> r[NODE_STRIDE * i + k] == #[trigger] node_word(
                nodes[i],
                k,
            ),
{
    let mut out: Vec<u32> = Vec::new();
    let mut i: usize = 0;
    while i < nodes.len()
        invariant
            i <= nodes.len(),
            out.len() == NODE_STRIDE * i,
            forall|j: int, k: int|
                0 <= j < i && 0 <= k < NODE_STRIDE ==> out[NODE_STRIDE * j + k] == #[trigger] node_word(
                    nodes[j],
                    k,
                ),
        decreases nodes.len() - i,
    {
        let node: Node = nodes[i];
        out.push(node.bounds_min.data[0].bits);
        out.push(node.bounds_min.data[1].bits);
        out.push(node.bounds_min.data[2].bits);
        out.push(node.first_tri_or_child);
        out.push(node.bounds_max.data[0].bits);
        out.push(node.bounds_max.data[1].bits);
        out.push(node.bounds_max.data[2].bits);
        out.push(node.num_tris);
        i += 1;
    }
    out
}

/// The words of the triangle buffer: [`TRIANGLE_STRIDE`] words a triangle.
pub fn triangle_words(tris: &Vec<Triangle>) -> (r: Vec<u32>)
    requires
        TRIANGLE_STRIDE * tris.len() <= usize::MAX,
    ensures
        r.len() == TRIANGLE_STRIDE * tris.len(),
        forall|i: int, k: int|
            0 <= i < tris.len() && 0 <= k < TRIANGLE_STRIDE ==> r[TRIANGLE_STRIDE * i + k]
                == #[trigger] triangle_word(tris[i], k),
{
    let mut out: Vec<u32> = Vec::new();
    let mut i: usize = 0;
    while i < tris.len()
        invariant
            i <= tris.len(),
            out.len() == TRIANGLE_STRIDE * i,
            forall|j: int, k: int|
                0 <= j < i && 0 <= k < TRIANGLE_STRIDE ==> out[TRIANGLE_STRIDE * j + k]
                    == #[trigger] triangle_word(tris[j], k),
        decreases tris.len() - i,
    {
        let tri: Triangle = tris[i];
        let mut v: usize = 0;
        while v < 3
            invariant
                v <= 3,
                i < tris.len(),
                tri == tris[i as int],
                out.len() == TRIANGLE_STRIDE * i + 8 * v,
                forall|j: int, k: int|
                    0 <= j < i && 0 <= k < TRIANGLE_STRIDE ==> out[TRIANGLE_STRIDE * j + k]
                        == #[trigger] triangle_word(tris[j], k),
                forall|k: int|
                    0 <= k < 8 * v ==> out[TRIANGLE_STRIDE * i + k] == #[trigger] triangle_word(tri, k),
            decreases 3 - v,
        {
            let vertex = tri.vertices[v];
            out.push(vertex.position[0].bits);
            out.push(vertex.position[1].bits);
            out.push(vertex.position[2].bits);
            out.push(vertex.normal[0].bits);
            out.push(vertex.normal[1].bits);
            out.push(vertex.normal[2].bits);
            out.push(vertex.tex_coord[0].bits);
            out.push(vertex.tex_coord[1].bits);
            v += 1;
        }
        out.push(#[verifier::truncate] (tri.material_id as u32));
        out.push(0);
        out.push(0);
        out.push(0);
        i += 1;
    }
    out
}

/// The words of the material buffer: [`MATERIAL_STRIDE`] words a material.
pub fn material_words(materials: &Vec<Material>) -> (r: Vec<u32>)
    requires
        MATERIAL_STRIDE * materials.len() <= usize::MAX,
    ensures
        r.len() == MATERIAL_STRIDE * materials.len(),
        forall|i: int, k: int|
            0 <= i < materials.len() && 0 <= k < MATERIAL_STRIDE ==> r[MATERIAL_STRIDE * i + k]
                == #[trigger] material_word(materials[i], k),
{
    let mut out: Vec<u32> = Vec::new();
    let mut i: usize = 0;
    while i < materials.len()
        invariant
            i <= materials.len(),
            out.len() == MATERIAL_STRIDE * i,
            forall|j: int, k: int|
                0 <= j < i && 0 <= k < MATERIAL_STRIDE ==> out[MATERIAL_STRIDE * j + k]
                    == #[trigger] material_word(materials[j], k),
        decreases materials.len() - i,
    {
        let m: &Material = &materials[i];
        out.push(m.base_color.data[0].bits);
        out.push(m.base_color.data[1].bits);
        out.push(m.base_color.data[2].bits);
        out.push(m.transmission.bits);
        out.push(m.specular_tint.data[0].bits);
        out.push(m.specular_tint.data[1].bits);
        out.push(m.specular_tint.data[2].bits);
        out.push(m.ior.bits);
        out.push(m.emission.data[0].bits);
        out.push(m.emission.data[1].bits);
        out.push(m.emission.data[2].bits);
        out.push(m.roughness.bits);
        out.push(m.metallic.bits);
        out.push(m.base_color_tex_id as u32);
        out.push(m.emission_tex_id as u32);
        out.push(0);
        i += 1;
    }
    out
}

/// The material buffer: the words of [`material_words`] as bytes.
pub fn material_buffer(materials: &Vec<Material>) -> (r: Vec<u8>)
    requires
        MATERIAL_STRIDE * materials.len() <= usize::MAX,
    ensures
        exists|words: Seq<u32>|
            {
                &&& #[trigger] holds_words(r@, words)
                &&& words.len() == MATERIAL_STRIDE * materials.len()
                &&& forall|i: int, k: int|
                    0 <= i < materials.len() && 0 <= k < MATERIAL_STRIDE ==> words[MATERIAL_STRIDE * i
                        + k] == #[trigger] material_word(materials[i], k)
            },
{
    let words: Vec<u32> = material_words(materials);
    words_to_bytes(&words)
}

/// The node buffer: the words of [`node_words`] as bytes.
pub fn node_buffer(nodes: &Vec<Node>) -> (r: Vec<u8>)
    requires
        NODE_STRIDE * nodes.len() <= usize::MAX,
    ensures
        exists|words: Seq<u32>|
            {
                &&& #[trigger] holds_words(r@, words)
                &&& words.len() == NODE_STRIDE * nodes.len()
                &&& forall|i: int, k: int|
                    0 <= i < nodes.len() && 0 <= k < NODE_STRIDE ==> words[NODE_STRIDE * i + k]
                        == #[trigger] node_word(nodes[i], k)
            },
{
    let words: Vec<u32> = node_words(nodes);
    words_to_bytes(&words)
}

/// The triangle buffer: the words of [`triangle_words`] as bytes.
pub fn triangle_buffer(tris: &Vec<Triangle>) -> (r: Vec<u8>)
    requires
        TRIANGLE_STRIDE * tris.len() <= usize::MAX,
    ensures
        exists|words: Seq<u32>|
            {
                &&& #[trigger] holds_words(r@, words)
                &&& words.len() == TRIANGLE_STRIDE * tris.len()
                &&& forall|i: int, k: int|
                    0 <= i < tris.len() && 0 <= k < TRIANGLE_STRIDE ==> words[TRIANGLE_STRIDE * i + k]
                        == #[trigger] triangle_word(tris[i], k)
            },
{
    let words: Vec<u32> = triangle_words(tris);
    words_to_bytes(&words)
}

/// Takes the frame that the pipeline rendered: the bytes, if there are four
/// for each pixel of the image, else nothing.
pub fn render_scene(renderer: &Renderer, frame: Vec<u8>) -> (r: Option<Vec<u8>>)
    ensures
        r.is_some() <==> frame.len() == renderer.options.output_image_dimensions.0
            * renderer.options.output_image_dimensions.1 * 4,
        r.is_some() ==> r.unwrap() == frame,
{
    let width: usize = renderer.options.output_image_dimensions.0;
    let height: usize = renderer.options.output_image_dimensions.1;
    let expected: Option<usize> = match width.checked_mul(height) {
        Some(pixels) => pixels.checked_mul(4),
        None => None,
    };
    match expected {
        Some(n) => if frame.len() == n {
            Some(frame)
        } else {
            None
        },
        None => None,
    }
}

} // verus!
