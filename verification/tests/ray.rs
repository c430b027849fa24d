use pathtracer::bvh::{Candidate, Node, Split, BVH, SAH_BINS};
use pathtracer::ray::{
    DebugTraversal, HitInfo, Path, Probe, Ray, Solution, Trace, Traversal, TraversalError, Visit,
    FAR_BITS, HIT_EPSILON_BITS, LARGE_LEAF, STACK_DEPTH,
};
use pathtracer::renderer::backend::cpu::xor_shift;
use pathtracer::scalar::Scalar;
use pathtracer::scene::{Triangle, Vertex};
use pathtracer::vector::{Axis, Vec3f};

type V3 = [f32; 3];

fn s(x: f32) -> Scalar {
    Scalar::from_bits(x.to_bits())
}

fn f(x: Scalar) -> f32 {
    f32::from_bits(x.to_bits())
}

fn v3(v: V3) -> Vec3f {
    Vec3f::new(s(v[0]), s(v[1]), s(v[2]))
}

fn sub(a: V3, b: V3) -> V3 {
    [a[0] - b[0], a[1] - b[1], a[2] - b[2]]
}

fn dot(a: V3, b: V3) -> f32 {
    a[0] * b[0] + a[1] * b[1] + a[2] * b[2]
}

fn cross(a: V3, b: V3) -> V3 {
    [a[1] * b[2] - a[2] * b[1], a[2] * b[0] - a[0] * b[2], a[0] * b[1] - a[1] * b[0]]
}

fn corner(p: V3) -> Vertex {
    Vertex { position: [s(p[0]), s(p[1]), s(p[2])], normal: [s(0.0), s(0.0), s(1.0)], tex_coord: [s(0.0), s(0.0)] }
}

fn triangle(a: V3, b: V3, c: V3, material_id: usize) -> Triangle {
    let mid = v3([(a[0] + b[0] + c[0]) / 3.0, (a[1] + b[1] + c[1]) / 3.0, (a[2] + b[2] + c[2]) / 3.0]);
    Triangle::new([corner(a), corner(b), corner(c)], material_id, mid)
}

fn position(tri: &Triangle, v: usize) -> V3 {
    let p = tri.vertices[v].position;
    [f(p[0]), f(p[1]), f(p[2])]
}

fn intersect(origin: V3, direction: V3, tri: &Triangle) -> HitInfo {
    let v_1 = position(tri, 0);
    let edge_1 = sub(position(tri, 1), v_1);
    let edge_2 = sub(position(tri, 2), v_1);
    let ray_cross_e2 = cross(direction, edge_2);
    let det = dot(edge_1, ray_cross_e2);
    let inv_det = 1.0 / det;
    let to_origin = sub(origin, v_1);
    let u = inv_det * dot(to_origin, ray_cross_e2);
    let s_cross_e1 = cross(to_origin, edge_1);
    let v = inv_det * dot(direction, s_cross_e1);
    let t = inv_det * dot(edge_2, s_cross_e1);
    let w = 1.0 - u - v;
    let normal = |k: usize| -> V3 {
        let n = tri.vertices[k].normal;
        [f(n[0]), f(n[1]), f(n[2])]
    };
    let (n_0, n_1, n_2) = (normal(0), normal(1), normal(2));
    let solution = Solution {
        det: s(det),
        t: s(t),
        u: s(u),
        v: s(v),
        uv_sum: s(u + v),
        point: v3([origin[0] + direction[0] * t, origin[1] + direction[1] * t, origin[2] + direction[2] * t]),
        normal: v3([
            n_0[0] * w + n_1[0] * u + n_2[0] * v,
            n_0[1] * w + n_1[1] * u + n_2[1] * v,
            n_0[2] * w + n_1[2] * u + n_2[2] * v,
        ]),
        uv: [s(u), s(v)],
    };
    Ray::intersect_tri(tri, &solution)
}

fn enter(origin: V3, direction: V3, node: &Node) -> Scalar {
    let pad = 0.0001f32;
    let mut t_min = [0.0f32; 3];
    let mut t_max = [0.0f32; 3];
    for a in 0..3 {
        t_min[a] = (f(node.bounds_min.data[a]) - pad - origin[a]) / direction[a];
        t_max[a] = (f(node.bounds_max.data[a]) + pad - origin[a]) / direction[a];
    }
    Ray::intersect_node(v3(t_min), v3(t_max))
}

fn search(bvh: &BVH, origin: V3, direction: V3) -> HitInfo {
    let mut traversal = Traversal::start(bvh);
    loop {
        match traversal.probe() {
            Probe::Triangle(t) => traversal.offer(intersect(origin, direction, &bvh.triangles()[t])),
            Probe::Children(a, b) => traversal
                .descend(enter(origin, direction, &bvh.node(a)), enter(origin, direction, &bvh.node(b)))
                .unwrap(),
            Probe::Done => return traversal.best(),
        }
    }
}

fn scan(bvh: &BVH, origin: V3, direction: V3) -> HitInfo {
    let mut best = HitInfo::default();
    for tri in bvh.triangles() {
        let hit = intersect(origin, direction, tri);
        if hit.has_hit && f(hit.distance) < f(best.distance) {
            best = hit;
        }
    }
    best
}

fn area(node: &Node) -> f32 {
    let x = f(node.bounds_max.data[0]) - f(node.bounds_min.data[0]);
    let y = f(node.bounds_max.data[1]) - f(node.bounds_min.data[1]);
    let z = f(node.bounds_max.data[2]) - f(node.bounds_min.data[2]);
    x * z + x * y + z * y
}

fn refine(bvh: &mut BVH, bins: usize) {
    while let Some(index) = bvh.next_pending() {
        let node = bvh.node(index);
        let parent_cost = node.num_tris as f32 * area(&node);
        let mut candidates = Vec::new();
        for (a, axis) in [Axis::X, Axis::Y, Axis::Z].into_iter().enumerate() {
            let lo = f(node.bounds_min.data[a]);
            let scale = (f(node.bounds_max.data[a]) - lo) / bins as f32;
            for i in 0..bins {
                let position = lo + i as f32 * scale;
                let tally = bvh.evaluate_sah(index, axis, s(position));
                let cost = tally.left.num_tris as f32 * area(&tally.left)
                    + tally.right.num_tris as f32 * area(&tally.right);
                candidates.push(Candidate { axis, position: s(position), cost: s(cost) });
            }
        }
        bvh.split_node(&candidates, s(parent_cost));
    }
}

fn cloud(count: usize, seed: u32) -> Vec<Triangle> {
    let mut state = seed;
    let mut next = |scale: f32| -> f32 { (xor_shift(&mut state) % 2001) as f32 / 1000.0 * scale - scale };
    let mut tris = Vec::new();
    for k in 0..count {
        let base = [next(10.0), next(10.0), next(10.0)];
        let b = [base[0] + next(2.0), base[1] + next(2.0), base[2] + next(2.0)];
        let c = [base[0] + next(2.0), base[1] + next(2.0), base[2] + next(2.0)];
        tris.push(triangle(base, b, c, k));
    }
    tris
}

fn row(count: usize) -> Vec<Triangle> {
    (0..count)
        .map(|k| {
            let x = 10.0 * k as f32;
            triangle([x, 0.0, 0.0], [x + 1.0, 0.0, 0.0], [x, 1.0, 0.0], k)
        })
        .collect()
}

fn floor_triangle() -> Triangle {
    triangle([0.0, 0.0, 0.0], [1.0, 0.0, 0.0], [0.0, 1.0, 0.0], 3)
}

#[test]
fn a_ray_through_a_triangle_hits_it() {
    let hit = intersect([0.25, 0.25, 1.0], [0.0, 0.0, -1.0], &floor_triangle());
    assert!(hit.has_hit);
    assert_eq!(f(hit.distance), 1.0);
    assert_eq!(hit.material_id, 3);
    assert_eq!([f(hit.uv[0]), f(hit.uv[1])], [0.25, 0.25]);
    assert!(hit.front_face);
    assert_eq!([f(hit.normal.data[0]), f(hit.normal.data[1]), f(hit.normal.data[2])], [0.0, 0.0, 1.0]);
    assert_eq!([f(hit.point.data[0]), f(hit.point.data[1]), f(hit.point.data[2])], [0.25, 0.25, 0.0]);
    let from_behind = intersect([0.25, 0.25, -1.0], [0.0, 0.0, 1.0], &floor_triangle());
    assert!(from_behind.has_hit);
    assert!(!from_behind.front_face);
    assert_eq!(from_behind.normal.data[2].to_bits(), (-1.0f32).to_bits());
    assert_eq!(from_behind.normal.data[0].to_bits(), (-0.0f32).to_bits());
    assert_eq!(f(from_behind.distance), 1.0);
}

#[test]
fn a_ray_parallel_to_the_plane_of_a_triangle_misses() {
    let hit = intersect([0.25, 0.25, 1.0], [1.0, 0.0, 0.0], &floor_triangle());
    assert!(!hit.has_hit);
    let in_plane = intersect([-1.0, 0.25, 0.0], [1.0, 0.0, 0.0], &floor_triangle());
    assert!(!in_plane.has_hit);
    let nearly = intersect([0.25, 0.25, 1.0], [1.0, 0.0, -1e-9], &floor_triangle());
    assert!(!nearly.has_hit);
}

#[test]
fn a_hit_needs_a_determinant_a_distance_and_coordinates_in_the_triangle() {
    let ok = |det: f32, t: f32, u: f32, v: f32| {
        Solution {
            det: s(det),
            t: s(t),
            u: s(u),
            v: s(v),
            uv_sum: s(u + v),
            point: v3([0.0; 3]),
            normal: v3([0.0; 3]),
            uv: [s(u), s(v)],
        }
        .accepted()
    };
    assert!(ok(1.0, 1.0, 0.25, 0.25));
    assert!(ok(-1.0, 1.0, 0.25, 0.25));
    assert!(ok(1.0, 1.0, 0.0, 0.0));
    assert!(ok(1.0, 1.0, -0.0, 1.0));
    assert!(ok(1.0, 1.0, 1.0, 0.0));
    assert!(!ok(0.0, 1.0, 0.25, 0.25));
    assert!(!ok(-0.0, 1.0, 0.25, 0.25));
    assert!(!ok(1e-8, 1.0, 0.25, 0.25));
    assert!(!ok(f32::NAN, 1.0, 0.25, 0.25));
    assert!(ok(f32::EPSILON, 1.0, 0.25, 0.25));
    assert!(!ok(1.0, 0.0001, 0.25, 0.25));
    assert!(ok(1.0, 0.00011, 0.25, 0.25));
    assert!(!ok(1.0, -1.0, 0.25, 0.25));
    assert!(!ok(1.0, f32::NAN, 0.25, 0.25));
    assert!(!ok(1.0, 1.0, -0.1, 0.25));
    assert!(!ok(1.0, 1.0, 1.1, 0.0));
    assert!(!ok(1.0, 1.0, 0.25, -0.1));
    assert!(!ok(1.0, 1.0, 0.75, 0.5));
    assert!(!ok(1.0, 1.0, f32::NAN, 0.25));
    assert!(!ok(1.0, 1.0, 0.25, f32::NAN));
    assert_eq!(HIT_EPSILON_BITS, 0.0001f32.to_bits());
}

#[test]
fn the_front_face_has_a_determinant_above_zero() {
    assert!(Ray::front_face(s(0.5)));
    assert!(!Ray::front_face(s(-0.5)));
    assert!(!Ray::front_face(s(0.0)));
    assert!(!Ray::front_face(s(f32::NAN)));
}

#[test]
fn a_ray_enters_a_box_at_the_last_of_its_first_crossings() {
    let entry = Ray::intersect_node(v3([1.0, 2.0, 3.0]), v3([5.0, 6.0, 7.0]));
    assert_eq!(f(entry), 3.0);
    let swapped = Ray::intersect_node(v3([5.0, 2.0, 7.0]), v3([1.0, 6.0, 3.0]));
    assert_eq!(f(swapped), 3.0);
    let inside = Ray::intersect_node(v3([-1.0, -2.0, -3.0]), v3([5.0, 6.0, 7.0]));
    assert_eq!(f(inside), -1.0);
}

#[test]
fn a_ray_that_misses_a_box_enters_at_the_far_distance() {
    let apart = Ray::intersect_node(v3([1.0, 6.0, 1.0]), v3([2.0, 7.0, 2.0]));
    assert_eq!(apart.to_bits(), FAR_BITS);
    let touching = Ray::intersect_node(v3([1.0, 2.0, 1.0]), v3([2.0, 3.0, 2.0]));
    assert_eq!(touching.to_bits(), FAR_BITS);
    let behind = Ray::intersect_node(v3([-5.0, -6.0, -7.0]), v3([-1.0, -2.0, -3.0]));
    assert_eq!(behind.to_bits(), FAR_BITS);
    assert_eq!(f(apart), 1e30);
}

#[test]
fn a_ray_along_an_axis_divides_by_zero_and_still_decides() {
    let node = Node {
        bounds_min: v3([0.0, 0.0, 0.0]),
        first_tri_or_child: 0,
        bounds_max: v3([1.0, 1.0, 1.0]),
        num_tris: 1,
    };
    let through = enter([0.5, 0.5, 5.0], [0.0, 0.0, -1.0], &node);
    assert!((f(through) - 4.0).abs() < 0.001);
    let beside = enter([2.0, 0.5, 5.0], [0.0, 0.0, -1.0], &node);
    assert_eq!(beside.to_bits(), FAR_BITS);
    let on_the_plane = Ray::intersect_node(
        v3([f32::NAN, f32::NEG_INFINITY, 4.0]),
        v3([f32::INFINITY, f32::INFINITY, 5.0]),
    );
    assert_eq!(on_the_plane.to_bits(), FAR_BITS);
    let inside_the_slab = Ray::intersect_node(
        v3([f32::NEG_INFINITY, f32::NEG_INFINITY, 4.0]),
        v3([f32::INFINITY, f32::INFINITY, 5.0]),
    );
    assert_eq!(f(inside_the_slab), 4.0);
    let all_nan = Ray::intersect_node(v3([f32::NAN; 3]), v3([f32::NAN; 3]));
    assert_eq!(all_nan.to_bits(), FAR_BITS);
}

#[test]
fn the_search_agrees_with_a_scan_of_all_triangles() {
    let mut bvh = BVH::build(cloud(300, 2024));
    refine(&mut bvh, SAH_BINS);
    assert!(bvh.len() > 50);
    let mut state: u32 = 99;
    let mut next = |scale: f32| -> f32 { (xor_shift(&mut state) % 2001) as f32 / 1000.0 * scale - scale };
    let mut hits = 0;
    for _ in 0..500 {
        let origin = [next(15.0), next(15.0), next(15.0)];
        let target = [next(8.0), next(8.0), next(8.0)];
        let direction = sub(target, origin);
        let found = search(&bvh, origin, direction);
        let expected = scan(&bvh, origin, direction);
        assert_eq!(found.has_hit, expected.has_hit);
        assert_eq!(found.distance.to_bits(), expected.distance.to_bits());
        if found.has_hit {
            hits += 1;
            let again = bvh
                .triangles()
                .iter()
                .map(|tri| intersect(origin, direction, tri))
                .find(|hit| hit.has_hit && hit.material_id == found.material_id)
                .unwrap();
            assert_eq!(again.distance.to_bits(), found.distance.to_bits());
        }
    }
    assert!(hits > 20);
}

#[test]
fn the_search_agrees_with_a_scan_along_the_axes() {
    let mut bvh = BVH::build(cloud(200, 7));
    refine(&mut bvh, SAH_BINS);
    let mut state: u32 = 3;
    let mut next = |scale: f32| -> f32 { (xor_shift(&mut state) % 2001) as f32 / 1000.0 * scale - scale };
    for k in 0..300 {
        let origin = [next(10.0), next(10.0), next(10.0)];
        let mut direction = [0.0f32; 3];
        direction[k % 3] = if k % 2 == 0 { 1.0 } else { -1.0 };
        let found = search(&bvh, origin, direction);
        let expected = scan(&bvh, origin, direction);
        assert_eq!(found.has_hit, expected.has_hit);
        assert_eq!(found.distance.to_bits(), expected.distance.to_bits());
        assert!(!f(found.distance).is_nan());
    }
}

#[test]
fn the_search_of_an_empty_scene_ends_at_once_without_a_hit() {
    let bvh = BVH::build(Vec::new());
    let mut traversal = Traversal::start(&bvh);
    assert_eq!(traversal.probe(), Probe::Done);
    traversal.offer(intersect([0.25, 0.25, 1.0], [0.0, 0.0, -1.0], &floor_triangle()));
    assert_eq!(traversal.descend(s(1.0), s(2.0)), Ok(()));
    assert_eq!(traversal.probe(), Probe::Done);
    let best = traversal.best();
    assert!(!best.has_hit);
    assert_eq!(best.distance.to_bits(), FAR_BITS);
}

#[test]
fn the_search_keeps_the_nearest_hit_of_a_leaf() {
    let tris = vec![
        triangle([0.0, 0.0, -3.0], [1.0, 0.0, -3.0], [0.0, 1.0, -3.0], 0),
        triangle([0.0, 0.0, -1.0], [1.0, 0.0, -1.0], [0.0, 1.0, -1.0], 1),
        triangle([0.0, 0.0, -2.0], [1.0, 0.0, -2.0], [0.0, 1.0, -2.0], 2),
    ];
    let bvh = BVH::build(tris);
    let mut traversal = Traversal::start(&bvh);
    for t in 0..3 {
        assert_eq!(traversal.probe(), Probe::Triangle(t));
        assert_eq!(traversal.descend(s(1.0), s(1.0)), Ok(()));
        assert_eq!(traversal.probe(), Probe::Triangle(t));
        traversal.offer(intersect([0.25, 0.25, 0.0], [0.0, 0.0, -1.0], &bvh.triangles()[t]));
    }
    assert_eq!(traversal.probe(), Probe::Done);
    let best = traversal.best();
    assert!(best.has_hit);
    assert_eq!(best.material_id, 1);
    assert_eq!(f(best.distance), 1.0);
}

#[test]
fn the_search_visits_the_nearer_child_first_and_prunes() {
    let mut bvh = BVH::build(row(2));
    let plane = vec![Candidate { axis: Axis::X, position: s(5.0), cost: s(1.0) }];
    assert_eq!(bvh.split_node(&plane, s(2.0)), Split::Divided { choice: 0 });
    let near = HitInfo { has_hit: true, distance: s(2.0), ..HitInfo::default() };

    let mut t = Traversal::start(&bvh);
    assert_eq!(t.probe(), Probe::Children(1, 2));
    t.offer(near);
    assert_eq!(t.probe(), Probe::Children(1, 2));
    assert_eq!(t.descend(s(3.0), s(1.0)), Ok(()));
    assert_eq!(t.probe(), Probe::Triangle(1));
    t.offer(HitInfo::default());
    assert_eq!(t.probe(), Probe::Triangle(0));
    t.offer(near);
    assert_eq!(t.probe(), Probe::Done);
    assert_eq!(f(t.best().distance), 2.0);

    let mut t = Traversal::start(&bvh);
    assert_eq!(t.descend(s(1.0), s(1.0)), Ok(()));
    assert_eq!(t.probe(), Probe::Triangle(0));
    t.offer(HitInfo::default());
    assert_eq!(t.probe(), Probe::Triangle(1));

    let mut t = Traversal::start(&bvh);
    assert_eq!(t.descend(s(1.0), Scalar::from_bits(FAR_BITS)), Ok(()));
    assert_eq!(t.probe(), Probe::Triangle(0));
    t.offer(near);
    assert_eq!(t.probe(), Probe::Done);

    let mut t = Traversal::start(&bvh);
    assert_eq!(t.descend(s(f32::NAN), s(4.0)), Ok(()));
    assert_eq!(t.probe(), Probe::Triangle(1));

    let mut t = Traversal::start(&bvh);
    assert_eq!(t.descend(Scalar::from_bits(FAR_BITS), Scalar::from_bits(FAR_BITS)), Ok(()));
    assert_eq!(t.probe(), Probe::Done);
    assert!(!t.best().has_hit);
}

#[test]
fn a_hit_beyond_the_far_distance_is_not_taken() {
    let bvh = BVH::build(row(1));
    let mut t = Traversal::start(&bvh);
    t.offer(HitInfo { has_hit: true, distance: s(1e30), ..HitInfo::default() });
    assert!(!t.best().has_hit);
    let mut t = Traversal::start(&bvh);
    t.offer(HitInfo { has_hit: true, distance: s(f32::NAN), ..HitInfo::default() });
    assert!(!t.best().has_hit);
    let mut t = Traversal::start(&bvh);
    t.offer(HitInfo { has_hit: false, distance: s(1.0), ..HitInfo::default() });
    assert!(!t.best().has_hit);
    assert_eq!(t.best().distance.to_bits(), FAR_BITS);
}

fn comb(depth: usize) -> BVH {
    let mut bvh = BVH::build(row(depth + 1));
    for k in (1..=depth).rev() {
        let plane = vec![Candidate { axis: Axis::X, position: s(10.0 * k as f32 - 5.0), cost: s(1.0) }];
        assert_eq!(bvh.split_node(&plane, s(2.0)), Split::Divided { choice: 0 });
    }
    while bvh.next_pending().is_some() {
        assert_eq!(bvh.split_node(&Vec::new(), s(2.0)), Split::Kept);
    }
    bvh
}

#[test]
fn a_search_that_is_too_deep_is_stopped() {
    let bvh = comb(STACK_DEPTH + 6);
    let mut t = Traversal::start(&bvh);
    for _ in 0..STACK_DEPTH {
        assert!(matches!(t.probe(), Probe::Children(_, _)));
        assert_eq!(t.descend(s(1.0), s(1.0)), Ok(()));
    }
    let stuck = t.probe();
    assert!(matches!(stuck, Probe::Children(_, _)));
    assert_eq!(t.descend(s(1.0), s(1.0)), Err(TraversalError::StackOverflow));
    assert_eq!(t.probe(), stuck);
    assert_eq!(t.descend(s(1.0), s(1.0)), Err(TraversalError::StackOverflow));
    assert_eq!(t.descend(s(1.0), Scalar::from_bits(FAR_BITS)), Ok(()));
    assert_ne!(t.probe(), stuck);
}

#[test]
fn a_deep_hierarchy_is_searched_when_few_nodes_wait() {
    let bvh = comb(STACK_DEPTH + 6);
    let origin = [0.25, 0.25, 1.0];
    let found = search(&bvh, origin, [0.0, 0.0, -1.0]);
    assert!(found.has_hit);
    assert_eq!(found.material_id, 0);
    assert_eq!(found.distance.to_bits(), scan(&bvh, origin, [0.0, 0.0, -1.0]).distance.to_bits());
}

#[test]
fn a_ray_that_strikes_nothing_ends_the_path_without_a_bounce() {
    let mut path = Path::new(6);
    assert!(path.is_open());
    let bvh = BVH::build(vec![floor_triangle()]);
    let hit = search(&bvh, [5.0, 5.0, 1.0], [0.0, 0.0, -1.0]);
    assert!(!hit.has_hit);
    assert_eq!(Ray::trace(&mut path, &hit), Trace::Escape);
    assert_eq!(path.bounces, 0);
    assert!(path.escaped);
    assert!(!path.is_open());
    assert_eq!(path.divisor(), None);
    assert_eq!(Ray::trace(&mut path, &hit), Trace::Spent);
    assert_eq!(path, Path { bounces: 0, max_bounces: 6, escaped: true });
}

#[test]
fn a_path_bounces_until_it_has_no_bounces_left() {
    let mut path = Path::new(3);
    let hit = HitInfo { has_hit: true, distance: s(1.0), ..HitInfo::default() };
    for k in 1..=3 {
        assert!(path.is_open());
        assert_eq!(Ray::trace(&mut path, &hit), Trace::Bounce);
        assert_eq!(path.bounces, k);
        assert_eq!(path.divisor(), Some(k));
    }
    assert!(!path.is_open());
    assert_eq!(Ray::trace(&mut path, &hit), Trace::Spent);
    assert_eq!(path.bounces, 3);
    assert!(!path.escaped);
}

#[test]
fn a_path_that_escapes_after_bounces_divides_by_them() {
    let mut path = Path::new(6);
    let hit = HitInfo { has_hit: true, distance: s(1.0), ..HitInfo::default() };
    assert_eq!(Ray::trace(&mut path, &hit), Trace::Bounce);
    assert_eq!(Ray::trace(&mut path, &hit), Trace::Bounce);
    assert_eq!(Ray::trace(&mut path, &HitInfo::default()), Trace::Escape);
    assert_eq!(path.divisor(), Some(2));
    assert_eq!(Path::new(0).divisor(), None);
    assert!(!Path::new(0).is_open());
}

#[test]
fn the_cost_walk_visits_what_the_ray_enters() {
    let mut tris = row(2);
    for _ in 0..5 {
        tris.push(triangle([100.0, 0.0, 0.0], [101.0, 0.0, 0.0], [100.0, 1.0, 0.0], 9));
    }
    let mut bvh = BVH::build(tris);
    let plane = |x: f32| vec![Candidate { axis: Axis::X, position: s(x), cost: s(1.0) }];
    assert_eq!(bvh.split_node(&plane(50.0), s(2.0)), Split::Divided { choice: 0 });
    assert_eq!(bvh.split_node(&plane(5.0), s(2.0)), Split::Divided { choice: 0 });
    assert_eq!(LARGE_LEAF, 4);
    let mut walk = DebugTraversal::start(&bvh);
    assert_eq!(walk.probe(), Some(0));
    assert_eq!(walk.debug_bvh(s(1.0)), Ok(Visit::Fork));
    assert_eq!(walk.probe(), Some(1));
    assert_eq!(walk.debug_bvh(s(1.0)), Ok(Visit::Fork));
    assert_eq!(walk.probe(), Some(3));
    assert_eq!(walk.debug_bvh(s(1.0)), Ok(Visit::SmallLeaf));
    assert_eq!(walk.probe(), Some(4));
    assert_eq!(walk.debug_bvh(Scalar::from_bits(FAR_BITS)), Ok(Visit::Missed));
    assert_eq!(walk.probe(), Some(2));
    assert_eq!(walk.debug_bvh(s(2.0)), Ok(Visit::LargeLeaf));
    assert_eq!(walk.probe(), None);
    assert_eq!(walk.debug_bvh(s(2.0)), Ok(Visit::Idle));

    let mut walk = DebugTraversal::start(&bvh);
    assert_eq!(walk.debug_bvh(s(f32::NAN)), Ok(Visit::Missed));
    assert_eq!(walk.probe(), None);
}

#[test]
fn the_cost_walk_of_an_empty_scene_visits_nothing() {
    let bvh = BVH::build(Vec::new());
    let mut walk = DebugTraversal::start(&bvh);
    assert_eq!(walk.probe(), None);
    assert_eq!(walk.debug_bvh(s(1.0)), Ok(Visit::Idle));
}

#[test]
fn a_cost_walk_that_is_too_deep_is_stopped() {
    let bvh = comb(STACK_DEPTH + 6);
    let mut walk = DebugTraversal::start(&bvh);
    for _ in 0..STACK_DEPTH - 1 {
        assert_eq!(walk.debug_bvh(s(1.0)), Ok(Visit::Fork));
    }
    let stuck = walk.probe();
    assert_eq!(walk.debug_bvh(s(1.0)), Err(TraversalError::StackOverflow));
    assert_eq!(walk.probe(), stuck);
    assert_eq!(walk.debug_bvh(Scalar::from_bits(FAR_BITS)), Ok(Visit::Missed));
}

#[test]
fn a_new_ray_holds_its_origin_and_direction() {
    let ray = Ray::new(v3([0.0, 0.0, 7.0]), v3([0.0, 0.0, -1.0]));
    assert_eq!(f(ray.origin.data[2]), 7.0);
    assert_eq!(f(ray.direction.data[2]), -1.0);
}

fn tables(bvh: &BVH, origin: V3, direction: V3) -> (Vec<HitInfo>, Vec<Scalar>) {
    let hits = bvh.triangles().iter().map(|tri| intersect(origin, direction, tri)).collect();
    let entries = (0..bvh.len()).map(|n| enter(origin, direction, &bvh.node(n))).collect();
    (hits, entries)
}

#[test]
fn the_search_over_tables_agrees_with_a_scan_and_with_the_search_by_questions() {
    let mut bvh = BVH::build(cloud(250, 515));
    refine(&mut bvh, SAH_BINS);
    let mut state: u32 = 1234;
    let mut next = |scale: f32| -> f32 { (xor_shift(&mut state) % 2001) as f32 / 1000.0 * scale - scale };
    let mut hits_found = 0;
    for _ in 0..200 {
        let origin = [next(15.0), next(15.0), next(15.0)];
        let direction = sub([next(8.0), next(8.0), next(8.0)], origin);
        let (hits, entries) = tables(&bvh, origin, direction);
        let found = Ray::traverse_bvh(&bvh, &hits, &entries).unwrap();
        let expected = scan(&bvh, origin, direction);
        let stepped = search(&bvh, origin, direction);
        assert_eq!(found.has_hit, expected.has_hit);
        assert_eq!(found.distance.to_bits(), expected.distance.to_bits());
        assert_eq!(found.material_id, stepped.material_id);
        assert_eq!(found.distance.to_bits(), stepped.distance.to_bits());
        if found.has_hit {
            hits_found += 1;
        }
    }
    assert!(hits_found > 10);
}

#[test]
fn the_search_over_tables_of_an_empty_scene_hits_nothing() {
    let bvh = BVH::build(Vec::new());
    let found = Ray::traverse_bvh(&bvh, &Vec::new(), &vec![s(1.0)]).unwrap();
    assert!(!found.has_hit);
    assert_eq!(found.distance.to_bits(), FAR_BITS);
}

#[test]
fn the_search_over_tables_that_is_too_deep_is_stopped() {
    let bvh = comb(STACK_DEPTH + 6);
    let hits = vec![HitInfo::default(); bvh.triangles().len()];
    let entries = vec![s(1.0); bvh.len()];
    assert_eq!(Ray::traverse_bvh(&bvh, &hits, &entries).err(), Some(TraversalError::StackOverflow));
    let shallow = comb(STACK_DEPTH);
    let hits = vec![HitInfo::default(); shallow.triangles().len()];
    let entries = vec![s(1.0); shallow.len()];
    assert!(Ray::traverse_bvh(&shallow, &hits, &entries).is_ok());
}

#[test]
fn the_cost_walk_over_a_table_meets_the_tour_from_the_root() {
    let mut tris = row(2);
    for _ in 0..5 {
        tris.push(triangle([100.0, 0.0, 0.0], [101.0, 0.0, 0.0], [100.0, 1.0, 0.0], 9));
    }
    let mut bvh = BVH::build(tris);
    let plane = |x: f32| vec![Candidate { axis: Axis::X, position: s(x), cost: s(1.0) }];
    assert_eq!(bvh.split_node(&plane(50.0), s(2.0)), Split::Divided { choice: 0 });
    assert_eq!(bvh.split_node(&plane(5.0), s(2.0)), Split::Divided { choice: 0 });
    let far = Scalar::from_bits(FAR_BITS);
    let all = vec![s(1.0); 5];
    assert_eq!(
        Ray::debug_bvh(&bvh, &all),
        Ok(vec![Visit::Fork, Visit::Fork, Visit::SmallLeaf, Visit::SmallLeaf, Visit::LargeLeaf])
    );
    let some = vec![s(1.0), far, s(1.0), s(1.0), s(1.0)];
    assert_eq!(Ray::debug_bvh(&bvh, &some), Ok(vec![Visit::Fork, Visit::Missed, Visit::LargeLeaf]));
    let none = vec![far; 5];
    assert_eq!(Ray::debug_bvh(&bvh, &none), Ok(vec![Visit::Missed]));
    let empty = BVH::build(Vec::new());
    assert_eq!(Ray::debug_bvh(&empty, &vec![s(1.0)]), Ok(Vec::new()));
    let deep = comb(STACK_DEPTH + 6);
    let entries = vec![s(1.0); deep.len()];
    assert_eq!(Ray::debug_bvh(&deep, &entries), Err(TraversalError::StackOverflow));
}

#[test]
fn the_search_over_tables_fails_from_the_first_depth_that_crowds_it() {
    for (depth, fits) in [(1usize, true), (STACK_DEPTH - 1, true), (STACK_DEPTH, true), (STACK_DEPTH + 1, false)] {
        let bvh = comb(depth);
        let hits = vec![HitInfo::default(); bvh.triangles().len()];
        let entries = vec![s(1.0); bvh.len()];
        assert_eq!(Ray::traverse_bvh(&bvh, &hits, &entries).is_ok(), fits, "depth {depth}");
    }
    let deep = comb(STACK_DEPTH + 6);
    let hits = vec![HitInfo::default(); deep.triangles().len()];
    let mut entries = vec![s(1.0); deep.len()];
    entries[1] = Scalar::from_bits(FAR_BITS);
    assert!(Ray::traverse_bvh(&deep, &hits, &entries).is_ok());
    let near = vec![HitInfo { has_hit: true, distance: s(0.5), ..HitInfo::default() }; deep.triangles().len()];
    let entries = vec![s(1.0); deep.len()];
    assert_eq!(Ray::traverse_bvh(&deep, &near, &entries).err(), Some(TraversalError::StackOverflow));
}

#[test]
fn the_search_over_tables_returns_what_the_descent_finds() {
    let mut bvh = BVH::build(row(2));
    let plane = vec![Candidate { axis: Axis::X, position: s(5.0), cost: s(1.0) }];
    assert_eq!(bvh.split_node(&plane, s(2.0)), Split::Divided { choice: 0 });
    let at = |d: f32, id: usize| HitInfo { has_hit: true, distance: s(d), material_id: id, ..HitInfo::default() };
    let far = Scalar::from_bits(FAR_BITS);

    let found = Ray::traverse_bvh(&bvh, &vec![at(3.0, 0), at(2.0, 1)], &vec![s(0.0), s(1.0), s(1.5)]).unwrap();
    assert_eq!((f(found.distance), found.material_id), (2.0, 1));

    let hidden = Ray::traverse_bvh(&bvh, &vec![at(3.0, 0), at(2.0, 1)], &vec![s(0.0), s(1.0), far]).unwrap();
    assert_eq!((f(hidden.distance), hidden.material_id), (3.0, 0));

    let waited = Ray::traverse_bvh(&bvh, &vec![at(2.0, 0), at(1.0, 1)], &vec![s(0.0), s(1.0), s(2.5)]).unwrap();
    assert_eq!((f(waited.distance), waited.material_id), (1.0, 1));

    let mut three = BVH::build(row(3));
    let plane = |x: f32| vec![Candidate { axis: Axis::X, position: s(x), cost: s(1.0) }];
    assert_eq!(three.split_node(&plane(15.0), s(2.0)), Split::Divided { choice: 0 });
    assert_eq!(three.split_node(&plane(5.0), s(2.0)), Split::Divided { choice: 0 });
    let hits = vec![at(5.0, 0), at(0.1, 1), at(1.5, 2)];
    let pruned = Ray::traverse_bvh(&three, &hits, &vec![s(0.0), s(2.0), s(1.0), s(1.0), s(3.0)]).unwrap();
    assert_eq!((f(pruned.distance), pruned.material_id), (1.5, 2));
    let open = Ray::traverse_bvh(&three, &hits, &vec![s(0.0), s(2.0), s(1.0), s(1.0), s(0.05)]).unwrap();
    assert_eq!((f(open.distance), open.material_id), (0.1, 1));

    let nearer_first = Ray::traverse_bvh(&bvh, &vec![at(2.0, 0), at(2.0, 1)], &vec![s(0.0), s(1.5), s(1.0)]).unwrap();
    assert_eq!(nearer_first.material_id, 1);

    let tie = Ray::traverse_bvh(&bvh, &vec![at(2.0, 0), at(2.0, 1)], &vec![s(0.0), s(1.0), s(1.0)]).unwrap();
    assert_eq!(tie.material_id, 0);

    let missed = Ray::traverse_bvh(&bvh, &vec![at(2.0, 0), at(2.0, 1)], &vec![s(0.0), far, far]).unwrap();
    assert!(!missed.has_hit);
    assert_eq!(missed.distance.to_bits(), FAR_BITS);
}

#[test]
fn the_cost_walk_over_a_table_fails_from_the_first_depth_that_crowds_it() {
    for (depth, fits) in [(1usize, true), (STACK_DEPTH - 2, true), (STACK_DEPTH - 1, true), (STACK_DEPTH, false)] {
        let bvh = comb(depth);
        let entries = vec![s(1.0); bvh.len()];
        let walked = Ray::debug_bvh(&bvh, &entries);
        assert_eq!(walked.is_ok(), fits, "depth {depth}");
        if let Ok(met) = walked {
            assert_eq!(met.len(), 2 * depth + 1);
            assert_eq!(met.iter().filter(|v| **v == Visit::Fork).count(), depth);
        }
    }
    let deep = comb(STACK_DEPTH + 6);
    let mut entries = vec![s(1.0); deep.len()];
    entries[1] = Scalar::from_bits(FAR_BITS);
    assert_eq!(Ray::debug_bvh(&deep, &entries), Ok(vec![Visit::Fork, Visit::Missed, Visit::SmallLeaf]));
}
