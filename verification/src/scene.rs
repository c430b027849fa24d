//! What is rendered: triangles, their materials, and the scene that holds
//! them.

use vstd::prelude::*;
use crate::bvh::{span, BVH, MAX_TRIANGLES};
use crate::loader::obj::OBJ;
use crate::scalar::{Scalar, ONE_BITS, ZERO_BITS};
use crate::texture::Texture;
use crate::vector::Vec3f;

verus! {

/// A corner of a triangle.
#[derive(Clone, Copy, Debug)]
pub struct Vertex {
    pub position: [Scalar; 3],
    pub normal: [Scalar; 3],
    pub tex_coord: [Scalar; 2],
}

/// A triangle with its material.
///
/// `centroid` is the midpoint of the three corners as the caller computed it.
/// The hierarchy sorts triangles by it and never recomputes it.
#[derive(Clone, Copy, Debug)]
pub struct Triangle {
    pub vertices: [Vertex; 3],
    pub material_id: usize,
    pub centroid: Vec3f,
}

impl Triangle {
    /// The triangle with the given corners, material and midpoint.
    pub fn new(vertices: [Vertex; 3], material_id: usize, centroid: Vec3f) -> (r: Triangle)
        ensures
            r.vertices == vertices,
            r.material_id == material_id,
            r.centroid == centroid,
    {
        Triangle { vertices, material_id, centroid }
    }

    /// The midpoint by which the triangle is sorted.
    pub fn mid(&self) -> (r: Vec3f)
        ensures
            r == self.centroid,
    {
        self.centroid
    }

    /// Coordinate `ax` of corner `v`.
    pub open spec fn coord(self, v: int, ax: int) -> Scalar {
        self.vertices[v].position[ax]
    }

    /// Coordinate `ax` of the midpoint.
    pub open spec fn mid_coord(self, ax: int) -> Scalar {
        self.centroid.data[ax]
    }

    /// Whether the midpoint lies, on every axis, between two corners of the
    /// triangle: at or above one of them and at or below one of them.
    pub open spec fn centred(self) -> bool {
        forall|ax: int| 0 <= ax < 3 ==> #[trigger] self.centred_on(ax)
    }

    /// Whether the midpoint lies between two corners on axis `ax`.
    pub open spec fn centred_on(self, ax: int) -> bool {
        exists|v: int, w: int|
            0 <= v < 3 && 0 <= w < 3 && (#[trigger] self.coord(v, ax)).le(self.mid_coord(ax))
                && self.mid_coord(ax).le(#[trigger] self.coord(w, ax))
    }
}

/// The texture index that stands for "no texture".
pub const NO_TEXTURE: i32 = -1;

/// Bit pattern of the index of refraction of the default material: 1.45.
pub const DEFAULT_IOR_BITS: u32 = 0x3fb9_999a;

/// How a surface reflects and emits light.
#[derive(Clone, Debug)]
pub struct Material {
    pub name: String,
    pub base_color: Vec3f,
    pub specular_tint: Vec3f,
    pub emission: Vec3f,
    pub transmission: Scalar,
    pub ior: Scalar,
    pub roughness: Scalar,
    pub metallic: Scalar,
    /// The texture that gives the base colour, or [`NO_TEXTURE`].
    pub base_color_tex_id: i32,
    /// The texture that gives the emission, or [`NO_TEXTURE`].
    pub emission_tex_id: i32,
}

/// Where a colour of a material comes from.
#[derive(Clone, Copy, Debug)]
pub enum Source {
    /// The colour itself.
    Constant(Vec3f),
    /// The texture with this index, looked up where the ray hit.
    Texture(usize),
}

/// The source of a colour with constant `constant` and texture index
/// `tex_id`: the texture, unless the index is the one for "no texture".
pub open spec fn source_of(constant: Vec3f, tex_id: i32) -> Source {
    if tex_id == NO_TEXTURE {
        Source::Constant(constant)
    } else {
        Source::Texture(tex_id as usize)
    }
}

fn pick_source(constant: Vec3f, tex_id: i32) -> (r: Source)
    ensures
        r == source_of(constant, tex_id),
{
    if tex_id == NO_TEXTURE {
        Source::Constant(constant)
    } else {
        Source::Texture(tex_id as usize)
    }
}

impl Material {
    /// Where the base colour comes from.
    pub fn base_color_source(&self) -> (r: Source)
        ensures
            r == source_of(self.base_color, self.base_color_tex_id),
    {
        pick_source(self.base_color, self.base_color_tex_id)
    }

    /// Where the emission comes from.
    pub fn emission_source(&self) -> (r: Source)
        ensures
            r == source_of(self.emission, self.emission_tex_id),
    {
        pick_source(self.emission, self.emission_tex_id)
    }
}

impl Default for Material {
    /// A white, rough, opaque surface that emits nothing and has no
    /// textures.
    fn default() -> (r: Material)
        ensures
            r.name@ == "default_material"@,
            forall|i: int| 0 <= i < 3 ==> (#[trigger] r.base_color.data[i]).bits == ONE_BITS,
            forall|i: int| 0 <= i < 3 ==> (#[trigger] r.specular_tint.data[i]).bits == ONE_BITS,
            forall|i: int| 0 <= i < 3 ==> (#[trigger] r.emission.data[i]).bits == ZERO_BITS,
            r.transmission.bits == ZERO_BITS,
            r.ior.bits == DEFAULT_IOR_BITS,
            r.roughness.bits == ONE_BITS,
            r.metallic.bits == ZERO_BITS,
            r.base_color_tex_id == NO_TEXTURE,
            r.emission_tex_id == NO_TEXTURE,
    {
        let zero: Scalar = Scalar { bits: ZERO_BITS };
        let one: Scalar = Scalar { bits: ONE_BITS };
        Material {
            name: "default_material".to_string(),
            base_color: Vec3f::new(one, one, one),
            specular_tint: Vec3f::new(one, one, one),
            emission: Vec3f::new(zero, zero, zero),
            transmission: zero,
            ior: Scalar { bits: DEFAULT_IOR_BITS },
            roughness: one,
            metallic: zero,
            base_color_tex_id: NO_TEXTURE,
            emission_tex_id: NO_TEXTURE,
        }
    }
}

/// A scene: the hierarchy with its triangles, and what the triangles are
/// made of.
pub struct Scene {
    pub materials: Vec<Material>,
    pub textures: Vec<Texture>,
    pub bvh: BVH,
}

impl Scene {
    /// The scene of a file. Each triangle gets its corners from the vertex
    /// buffers and its midpoint from `centroids`, which holds one midpoint
    /// per triangle of the file. The hierarchy is started over the
    /// triangles in the order of the file; it has one root and is not split
    /// yet.
    pub fn from(obj: OBJ, centroids: &Vec<Vec3f>) -> (r: Scene)
        requires
            obj.tris.len() <= MAX_TRIANGLES,
            centroids.len() == obj.tris.len(),
        ensures
            r.bvh@.wf(),
            r.materials@ == obj.materials@,
            r.textures@.len() == 0,
            r.bvh@.tris == r.bvh@.source,
            r.bvh@.tris.len() == obj.tris.len(),
            forall|k: int, c: int|
                0 <= k < obj.tris.len() && 0 <= c < 3 ==> r.bvh@.tris[k].vertices[c]
                    == #[trigger] obj.vertex_buffer.corner_of(obj.tris[k], c),
            forall|k: int|
                0 <= k < obj.tris.len() ==> (#[trigger] r.bvh@.tris[k]).material_id
                    == obj.tris[k].material_id && r.bvh@.tris[k].centroid == centroids[k],
            r.bvh@.nodes.len() == 1,
            r.bvh@.nodes[0].first_tri_or_child == 0,
            r.bvh@.nodes[0].num_tris == obj.tris.len(),
            r.bvh@.nodes[0].tight(r.bvh@.tris, span(0, obj.tris.len() as int)),
    {
        let mut tris: Vec<Triangle> = Vec::new();
        let mut k: usize = 0;
        while k < obj.tris.len()
            invariant
                k <= obj.tris.len(),
                centroids.len() == obj.tris.len(),
                tris.len() == k,
                forall|j: int, c: int|
                    0 <= j < k && 0 <= c < 3 ==> tris[j].vertices[c]
                        == #[trigger] obj.vertex_buffer.corner_of(obj.tris[j], c),
                forall|j: int|
                    0 <= j < k ==> (#[trigger] tris[j]).material_id == obj.tris[j].material_id
                        && tris[j].centroid == centroids[j],
            decreases obj.tris.len() - k,
        {
            let face = &obj.tris[k];
            let vertices: [Vertex; 3] = obj.vertex_buffer.corners(face);
            tris.push(Triangle::new(vertices, face.material_id, centroids[k]));
            k += 1;
        }
        let bvh = BVH::build(tris);
        Scene { materials: obj.materials, textures: Vec::new(), bvh }
    }
}

} // verus!
