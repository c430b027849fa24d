use pathtracer::image::{Image, PPM};
use pathtracer::loader::obj::{ParseObjTriangleError, Triangle as Face, VertexBuffer, OBJ};
use pathtracer::scalar::Scalar;
use pathtracer::scene::{Material, Scene, Source, Triangle, Vertex, DEFAULT_IOR_BITS, NO_TEXTURE};
use pathtracer::texture::{Texture, BMP};
use pathtracer::vector::Vec3f;

fn s(x: f32) -> Scalar {
    Scalar::from_bits(x.to_bits())
}

fn f(x: Scalar) -> f32 {
    f32::from_bits(x.to_bits())
}

fn triple(v: [Scalar; 3]) -> [f32; 3] {
    [f(v[0]), f(v[1]), f(v[2])]
}

fn checker() -> Texture {
    Texture::load_from_bmp(BMP {
        width: 3,
        height: 2,
        pixel_data: vec![[0, 0, 0], [1, 1, 1], [2, 2, 2], [3, 3, 3], [4, 4, 4], [5, 5, 5]],
    })
}

#[test]
fn a_texture_takes_over_a_decoded_bitmap() {
    let texture = checker();
    assert_eq!(texture.width, 3);
    assert_eq!(texture.height, 2);
    assert_eq!(texture.pixel_data.len(), 6);
    assert_eq!(texture.pixel_data[4], [4, 4, 4]);
}

#[test]
fn texels_are_read_row_by_row() {
    let texture = checker();
    assert_eq!(texture.color_at(0, 0), [0, 0, 0]);
    assert_eq!(texture.color_at(2, 0), [2, 2, 2]);
    assert_eq!(texture.color_at(0, 1), [3, 3, 3]);
    assert_eq!(texture.color_at(2, 1), [5, 5, 5]);
}

#[test]
fn texels_outside_the_buffer_wrap_around() {
    let texture = checker();
    assert_eq!(texture.color_at(0, 2), [0, 0, 0]);
    assert_eq!(texture.color_at(3, 1), [0, 0, 0]);
    assert_eq!(texture.color_at(1, 2), [1, 1, 1]);
    assert_eq!(texture.color_at(-1, 0), [5, 5, 5]);
    assert_eq!(texture.color_at(0, -1), [3, 3, 3]);
    assert_eq!(texture.color_at(-6, 0), [0, 0, 0]);
    assert_eq!(texture.color_at(-7, 0), [5, 5, 5]);
    assert_eq!(texture.color_at(i32::MAX, i32::MAX), [4, 4, 4]);
    assert_eq!(texture.color_at(i32::MIN, i32::MIN), [4, 4, 4]);
}

#[test]
fn the_default_material_is_white_rough_and_dark() {
    let m = Material::default();
    assert_eq!(m.name, "default_material");
    assert_eq!(triple(m.base_color.data), [1.0, 1.0, 1.0]);
    assert_eq!(triple(m.specular_tint.data), [1.0, 1.0, 1.0]);
    assert_eq!(triple(m.emission.data), [0.0, 0.0, 0.0]);
    assert_eq!(f(m.transmission), 0.0);
    assert_eq!(f(m.ior), 1.45);
    assert_eq!(m.ior.to_bits(), DEFAULT_IOR_BITS);
    assert_eq!(f(m.roughness), 1.0);
    assert_eq!(f(m.metallic), 0.0);
    assert_eq!(m.base_color_tex_id, NO_TEXTURE);
    assert_eq!(m.emission_tex_id, NO_TEXTURE);
}

#[test]
fn a_colour_comes_from_its_texture_unless_it_has_none() {
    let mut m = Material::default();
    m.emission = Vec3f::new(s(2.0), s(3.0), s(4.0));
    match m.base_color_source() {
        Source::Constant(c) => assert_eq!(triple(c.data), [1.0, 1.0, 1.0]),
        Source::Texture(_) => panic!("the default material has no texture"),
    }
    match m.emission_source() {
        Source::Constant(c) => assert_eq!(triple(c.data), [2.0, 3.0, 4.0]),
        Source::Texture(_) => panic!("the default material has no texture"),
    }
    m.base_color_tex_id = 0;
    m.emission_tex_id = 7;
    assert!(matches!(m.base_color_source(), Source::Texture(0)));
    assert!(matches!(m.emission_source(), Source::Texture(7)));
}

fn file() -> OBJ {
    OBJ {
        tris: vec![
            Face { positions: [0, 1, 2], tex_coords: [0, 0, 9], normals: [0, 0, 0], material_id: 0 },
            Face { positions: [2, 1, 7], tex_coords: [1, 1, 1], normals: [5, 0, 0], material_id: 1 },
        ],
        vertex_buffer: VertexBuffer {
            positions: vec![[s(0.0), s(0.0), s(0.0)], [s(1.0), s(0.0), s(0.0)], [s(0.0), s(1.0), s(0.0)]],
            tex_coords: vec![[s(0.25), s(0.75)]],
            normals: vec![[s(0.0), s(0.0), s(1.0)]],
        },
        materials: vec![Material::default(), Material::default()],
    }
}

#[test]
fn corners_are_looked_up_in_the_buffers() {
    let obj = file();
    let corner: Vertex = obj.vertex_buffer.corner(&obj.tris[0], 1);
    assert_eq!(triple(corner.position), [1.0, 0.0, 0.0]);
    assert_eq!(triple(corner.normal), [0.0, 0.0, 1.0]);
    assert_eq!([f(corner.tex_coord[0]), f(corner.tex_coord[1])], [0.25, 0.75]);
    let corners = obj.vertex_buffer.corners(&obj.tris[0]);
    assert_eq!(triple(corners[2].position), [0.0, 1.0, 0.0]);
}

#[test]
fn an_index_without_an_entry_gives_zeros() {
    let obj = file();
    let missing = obj.vertex_buffer.corner(&obj.tris[1], 2);
    assert_eq!(triple(missing.position), [0.0, 0.0, 0.0]);
    assert_eq!([f(missing.tex_coord[0]), f(missing.tex_coord[1])], [0.0, 0.0]);
    let no_normal = obj.vertex_buffer.corner(&obj.tris[1], 0);
    assert_eq!(triple(no_normal.normal), [0.0, 0.0, 0.0]);
    assert_eq!(triple(no_normal.position), [0.0, 1.0, 0.0]);
    let no_uv = obj.vertex_buffer.corner(&obj.tris[0], 2);
    assert_eq!([f(no_uv.tex_coord[0]), f(no_uv.tex_coord[1])], [0.0, 0.0]);
}

#[test]
fn a_scene_holds_the_triangles_of_the_file_under_one_root() {
    let centroids = vec![Vec3f::new(s(0.3), s(0.3), s(0.0)), Vec3f::new(s(0.3), s(0.3), s(0.0))];
    let scene = Scene::from(file(), &centroids);
    assert_eq!(scene.materials.len(), 2);
    assert!(scene.textures.is_empty());
    assert_eq!(scene.bvh.len(), 1);
    assert_eq!(scene.bvh.node(0).num_tris, 2);
    assert_eq!(scene.bvh.next_pending(), Some(0));
    let tris: &Vec<Triangle> = scene.bvh.triangles();
    assert_eq!(tris.len(), 2);
    assert_eq!(tris[1].material_id, 1);
    assert_eq!(triple(tris[1].vertices[0].position), [0.0, 1.0, 0.0]);
    assert_eq!(triple(tris[1].vertices[2].position), [0.0, 0.0, 0.0]);
    assert_eq!(f(tris[0].mid().data[0]), 0.3);
    assert_eq!(triple(scene.bvh.node(0).bounds_max.data), [1.0, 1.0, 0.0]);
}

#[test]
fn the_error_of_an_unreadable_triangle_equals_itself() {
    assert_eq!(ParseObjTriangleError, ParseObjTriangleError);
}

#[test]
fn a_new_pixmap_is_empty() {
    let image = PPM::new(4, 3);
    assert_eq!(image.width, 4);
    assert_eq!(image.height, 3);
    assert!(image.pixel_data.is_empty());
}

#[test]
fn a_pixmap_is_written_as_text() {
    let mut image = PPM::new(2, 2);
    image.pixel_data = vec![[255, 0, 0], [0, 128, 7], [10, 20, 30], [1, 2, 3]];
    let text = String::from_utf8(image.encode()).unwrap();
    assert_eq!(text, "P3\n2 2\n255\n255 0 0 0 128 7 \n10 20 30 1 2 3 \n");
}

#[test]
fn a_pixmap_without_pixels_is_a_header() {
    let image = PPM::new(0, 0);
    assert_eq!(String::from_utf8(image.encode()).unwrap(), "P3\n0 0\n255\n");
    let mut wide = PPM::new(1200, 1);
    wide.pixel_data = vec![[9, 9, 9]; 1200];
    let text = String::from_utf8(wide.encode()).unwrap();
    assert!(text.starts_with("P3\n1200 1\n255\n9 9 9 "));
    assert_eq!(text.len(), 14 + 1200 * 6 + 1);
}

fn face(line: &str) -> Result<([usize; 3], [usize; 3], [usize; 3]), ParseObjTriangleError> {
    Face::from_str(line).map(|t| {
        assert_eq!(t.material_id, 0);
        (t.positions, t.tex_coords, t.normals)
    })
}

#[test]
fn a_line_of_full_corners_is_read() {
    assert_eq!(face("1/2/3 4/5/6 7/8/9"), Ok(([0, 3, 6], [1, 4, 7], [2, 5, 8])));
    assert_eq!(face("10/20/30 1/1/1 123456/7/8"), Ok(([9, 0, 123455], [19, 0, 6], [29, 0, 7])));
}

#[test]
fn a_line_of_corners_without_texture_is_read() {
    assert_eq!(face("1//3 4//6 7//9"), Ok(([0, 3, 6], [0, 0, 0], [2, 5, 8])));
}

#[test]
fn a_line_of_positions_is_read() {
    assert_eq!(face("1 2 3"), Ok(([0, 1, 2], [0, 0, 0], [0, 0, 0])));
    assert_eq!(face("1/2 3/4 5/6"), Ok(([0, 2, 4], [1, 3, 5], [0, 0, 0])));
    assert_eq!(face("1 2/3 4//5"), Ok(([0, 1, 3], [0, 2, 0], [0, 0, 4])));
}

#[test]
fn white_space_around_corners_does_not_count() {
    assert_eq!(face("  1   2\t3  "), Ok(([0, 1, 2], [0, 0, 0], [0, 0, 0])));
    assert_eq!(face("1 2 3\r\n"), Ok(([0, 1, 2], [0, 0, 0], [0, 0, 0])));
}

#[test]
fn corners_that_are_missing_keep_the_index_zero() {
    assert_eq!(face(""), Ok(([0, 0, 0], [0, 0, 0], [0, 0, 0])));
    assert_eq!(face("   "), Ok(([0, 0, 0], [0, 0, 0], [0, 0, 0])));
    assert_eq!(face("5/6/7"), Ok(([4, 0, 0], [5, 0, 0], [6, 0, 0])));
    assert_eq!(face("5 6"), Ok(([4, 5, 0], [0, 0, 0], [0, 0, 0])));
}

#[test]
fn a_line_that_cannot_be_read_is_an_error() {
    for line in [
        "1 2 3 4",
        "0 1 2",
        "1/0/1 2 3",
        "a b c",
        "1/ 2 3",
        "1// 2 3",
        "/1 2 3",
        "//1 2 3",
        "-1 2 3",
        "+1 2 3",
        "1.5 2 3",
        "1/2/3/4 5 6",
        "1//3/4 5 6",
        "1/2/ 3 4",
        "99999999999999999999999999 1 2",
        "1 2 3x",
    ] {
        assert_eq!(face(line), Err(ParseObjTriangleError), "{line}");
    }
}

#[test]
fn the_largest_index_of_the_machine_is_read() {
    let line = format!("{} 1 1", usize::MAX);
    assert_eq!(face(&line), Ok(([usize::MAX - 1, 0, 0], [0, 0, 0], [0, 0, 0])));
    let beyond = format!("{}0 1 1", usize::MAX);
    assert_eq!(face(&beyond), Err(ParseObjTriangleError));
}

#[test]
fn a_pixmap_writes_the_pixels_of_its_size_only() {
    let mut image = PPM::new(1, 2);
    image.pixel_data = vec![[1, 2, 3], [4, 5, 6], [7, 8, 9]];
    assert_eq!(String::from_utf8(image.encode()).unwrap(), "P3\n1 2\n255\n1 2 3 \n4 5 6 \n");
}
