use pathtracer::bvh::{
    best_split, plane_order, Candidate, Node, Split, BVH, MAX_TRIANGLES, SAH_BINS, SAH_BINS_FINE,
};
use pathtracer::renderer::backend::cpu::xor_shift;
use pathtracer::scalar::{Scalar, LOWEST_BITS, MAX_BITS};
use pathtracer::scene::{Triangle, Vertex};
use pathtracer::vector::{Axis, Vec3f};

fn s(x: f32) -> Scalar {
    Scalar::from_bits(x.to_bits())
}

fn f(x: Scalar) -> f32 {
    f32::from_bits(x.to_bits())
}

fn corner(p: [f32; 3]) -> Vertex {
    Vertex { position: [s(p[0]), s(p[1]), s(p[2])], normal: [s(0.0), s(0.0), s(1.0)], tex_coord: [s(0.0), s(0.0)] }
}

fn triangle(a: [f32; 3], b: [f32; 3], c: [f32; 3], material_id: usize) -> Triangle {
    let mid = Vec3f::new(
        s((a[0] + b[0] + c[0]) / 3.0),
        s((a[1] + b[1] + c[1]) / 3.0),
        s((a[2] + b[2] + c[2]) / 3.0),
    );
    Triangle::new([corner(a), corner(b), corner(c)], material_id, mid)
}

fn area(node: &Node) -> f32 {
    let x = f(node.bounds_max.data[0]) - f(node.bounds_min.data[0]);
    let y = f(node.bounds_max.data[1]) - f(node.bounds_min.data[1]);
    let z = f(node.bounds_max.data[2]) - f(node.bounds_min.data[2]);
    x * z + x * y + z * y
}

fn candidates_for(bvh: &BVH, index: usize, bins: usize) -> Vec<Candidate> {
    let node = bvh.node(index);
    let mut candidates = Vec::new();
    for (axis, i) in plane_order(bins) {
        let a = axis.index();
        let lo = f(node.bounds_min.data[a]);
        let hi = f(node.bounds_max.data[a]);
        let scale = (hi - lo) / bins as f32;
        let position = lo + i as f32 * scale;
        let tally = bvh.evaluate_sah(index, axis, s(position));
        let cost = tally.left.num_tris as f32 * area(&tally.left)
            + tally.right.num_tris as f32 * area(&tally.right);
        candidates.push(Candidate { axis, position: s(position), cost: s(cost) });
    }
    candidates
}

fn refine(bvh: &mut BVH, bins: usize) -> Vec<Split> {
    let mut outcomes = Vec::new();
    while let Some(index) = bvh.next_pending() {
        let node = bvh.node(index);
        let parent_cost = node.num_tris as f32 * area(&node);
        let candidates = candidates_for(bvh, index, bins);
        outcomes.push(bvh.split_node(&candidates, s(parent_cost)));
    }
    outcomes
}

fn cloud(count: usize, seed: u32) -> Vec<Triangle> {
    let mut state = seed;
    let mut next = |scale: f32| -> f32 { (xor_shift(&mut state) % 2001) as f32 / 1000.0 * scale - scale };
    let mut tris = Vec::new();
    for k in 0..count {
        let base = [next(10.0), next(10.0), next(10.0)];
        let b = [base[0] + next(0.5), base[1] + next(0.5), base[2] + next(0.5)];
        let c = [base[0] + next(0.5), base[1] + next(0.5), base[2] + next(0.5)];
        tris.push(triangle(base, b, c, k));
    }
    tris
}

fn key(t: &Triangle) -> Vec<u32> {
    let mut out = vec![t.material_id as u32];
    for v in &t.vertices {
        out.extend(v.position.iter().map(|c| c.to_bits()));
    }
    out
}

fn leaves(bvh: &BVH) -> Vec<(usize, Node)> {
    (0..bvh.len()).map(|i| (i, bvh.node(i))).filter(|(_, n)| n.num_tris > 0).collect()
}

fn reaches(bvh: &BVH, from: usize, leaf: usize) -> bool {
    if from == leaf {
        return true;
    }
    let node = bvh.node(from);
    if node.num_tris > 0 {
        return false;
    }
    let c = node.first_tri_or_child as usize;
    reaches(bvh, c, leaf) || reaches(bvh, c + 1, leaf)
}

fn tight_bounds(tris: &[Triangle]) -> ([f32; 3], [f32; 3]) {
    let mut lo = [f32::MAX; 3];
    let mut hi = [-f32::MAX; 3];
    for t in tris {
        for v in &t.vertices {
            for a in 0..3 {
                lo[a] = lo[a].min(f(v.position[a]));
                hi[a] = hi[a].max(f(v.position[a]));
            }
        }
    }
    (lo, hi)
}

fn bounds(node: &Node) -> ([f32; 3], [f32; 3]) {
    (
        [f(node.bounds_min.data[0]), f(node.bounds_min.data[1]), f(node.bounds_min.data[2])],
        [f(node.bounds_max.data[0]), f(node.bounds_max.data[1]), f(node.bounds_max.data[2])],
    )
}

#[test]
fn single_triangle_scene_is_one_leaf() {
    let mut bvh = BVH::build(vec![triangle([0.0, 0.0, 0.0], [1.0, 0.0, 0.0], [0.0, 1.0, 0.0], 0)]);
    assert_eq!(bvh.len(), 1);
    assert_eq!(bvh.next_pending(), Some(0));
    let outcomes = refine(&mut bvh, SAH_BINS);
    assert_eq!(outcomes, vec![Split::Kept]);
    assert_eq!(bvh.len(), 1);
    let root = bvh.node(0);
    assert_eq!(root.num_tris, 1);
    assert_eq!(root.first_tri_or_child, 0);
    assert_eq!(bounds(&root), ([0.0, 0.0, 0.0], [1.0, 1.0, 0.0]));
    assert_eq!(bvh.next_pending(), None);
}

#[test]
fn empty_scene_is_an_empty_root() {
    let mut bvh = BVH::build(Vec::new());
    assert_eq!(bvh.len(), 1);
    let root = bvh.node(0);
    assert_eq!(root.num_tris, 0);
    assert_eq!(root.first_tri_or_child, 0);
    assert_eq!(root.bounds_min.data[0].to_bits(), MAX_BITS);
    assert_eq!(root.bounds_max.data[2].to_bits(), LOWEST_BITS);
    assert_eq!(bvh.next_pending(), None);
    assert_eq!(bvh.split_node(&Vec::new(), s(1.0)), Split::Idle);
    assert_eq!(bvh.len(), 1);
    assert!(bvh.triangles().is_empty());
}

#[test]
fn two_triangles_across_x_split_on_the_x_axis_near_zero() {
    let left = triangle([-1.0, 0.0, 0.0], [0.0, 0.0, 0.0], [0.0, 1.0, 0.0], 0);
    let right = triangle([0.0, 0.0, 0.0], [3.0, 0.0, 0.0], [0.0, 1.0, 0.0], 1);
    let mut bvh = BVH::build(vec![right, left]);
    let candidates = candidates_for(&bvh, 0, SAH_BINS_FINE);
    assert_eq!(candidates.len(), 48);
    let root = bvh.node(0);
    let parent_cost = 2.0 * area(&root);
    let outcome = bvh.split_node(&candidates, s(parent_cost));
    let choice = match outcome {
        Split::Divided { choice } => choice,
        other => panic!("the root was not divided: {:?}", other),
    };
    let taken = candidates[choice];
    assert_eq!(taken.axis, Axis::X);
    let bin_width = 4.0 / 16.0;
    assert!(f(taken.position).abs() <= bin_width);
    assert_eq!(f(taken.position), -0.25);
    assert!(f(taken.cost) < parent_cost);
    assert_eq!(bvh.len(), 3);
    let parent = bvh.node(0);
    assert_eq!(parent.num_tris, 0);
    assert_eq!(parent.first_tri_or_child, 1);
    let (a, b) = (bvh.node(1), bvh.node(2));
    assert_eq!((a.first_tri_or_child, a.num_tris), (0, 1));
    assert_eq!((b.first_tri_or_child, b.num_tris), (1, 1));
    assert_eq!(bvh.triangles()[0].material_id, 0);
    assert_eq!(bvh.triangles()[1].material_id, 1);
    assert_eq!(bounds(&a), ([-1.0, 0.0, 0.0], [0.0, 1.0, 0.0]));
    assert_eq!(bounds(&b), ([0.0, 0.0, 0.0], [3.0, 1.0, 0.0]));
    assert_eq!(bvh.next_pending(), Some(1));
    assert_eq!(refine(&mut bvh, SAH_BINS_FINE), vec![Split::Kept, Split::Kept]);
    assert_eq!(bvh.len(), 3);
}

#[test]
fn root_bounds_are_tight() {
    let tris = cloud(40, 12345);
    let expected = tight_bounds(&tris);
    let bvh = BVH::build(tris);
    let root = bvh.node(0);
    assert_eq!(root.num_tris, 40);
    assert_eq!(bounds(&root), expected);
}

#[test]
fn every_triangle_is_in_exactly_one_leaf_that_encloses_it() {
    let tris = cloud(200, 777);
    let mut bvh = BVH::build(tris.clone());
    refine(&mut bvh, SAH_BINS);
    assert!(bvh.len() > 1);
    let all = leaves(&bvh);
    let eps = 1e-4f32;
    for (t, tri) in bvh.triangles().iter().enumerate() {
        let holders: Vec<&(usize, Node)> = all
            .iter()
            .filter(|(_, n)| {
                let first = n.first_tri_or_child as usize;
                first <= t && t < first + n.num_tris as usize
            })
            .collect();
        assert_eq!(holders.len(), 1);
        let (index, leaf) = holders[0];
        assert!(reaches(&bvh, 0, *index));
        let (lo, hi) = bounds(leaf);
        for a in 0..3 {
            let mid = f(tri.mid().data[a]);
            assert!(lo[a] - eps <= mid && mid <= hi[a] + eps);
            for v in &tri.vertices {
                assert!(lo[a] <= f(v.position[a]) && f(v.position[a]) <= hi[a]);
            }
        }
    }
    let mut before: Vec<Vec<u32>> = tris.iter().map(key).collect();
    let mut after: Vec<Vec<u32>> = bvh.triangles().iter().map(key).collect();
    before.sort();
    after.sort();
    assert_eq!(before, after);
}

#[test]
fn leaf_ranges_partition_the_triangles() {
    let mut bvh = BVH::build(cloud(150, 4242));
    refine(&mut bvh, SAH_BINS);
    let mut ranges: Vec<(usize, usize)> = leaves(&bvh)
        .iter()
        .map(|(_, n)| (n.first_tri_or_child as usize, n.num_tris as usize))
        .collect();
    ranges.sort();
    let mut next = 0usize;
    for (first, count) in &ranges {
        assert_eq!(*first, next);
        next = first + count;
    }
    assert_eq!(next, 150);
    let total: usize = ranges.iter().map(|r| r.1).sum();
    assert_eq!(total, 150);
    assert_eq!(bvh.len(), 2 * ranges.len() - 1);
}

#[test]
fn every_node_has_the_tight_bounds_of_its_triangles() {
    let mut bvh = BVH::build(cloud(120, 99));
    refine(&mut bvh, SAH_BINS);
    fn range_of(bvh: &BVH, n: usize) -> (usize, usize) {
        let node = bvh.node(n);
        if node.num_tris > 0 {
            let first = node.first_tri_or_child as usize;
            (first, first + node.num_tris as usize)
        } else {
            let c = node.first_tri_or_child as usize;
            let (a, m) = range_of(bvh, c);
            let (m2, b) = range_of(bvh, c + 1);
            assert_eq!(m, m2);
            (a, b)
        }
    }
    for n in 0..bvh.len() {
        let (a, b) = range_of(&bvh, n);
        assert_eq!(bounds(&bvh.node(n)), tight_bounds(&bvh.triangles()[a..b]));
        let node = bvh.node(n);
        if node.num_tris == 0 {
            assert!(node.first_tri_or_child as usize > n);
        }
    }
}

#[test]
fn a_split_costs_less_than_the_parent() {
    let mut bvh = BVH::build(cloud(60, 31337));
    let mut divided = 0;
    while let Some(index) = bvh.next_pending() {
        let node = bvh.node(index);
        let parent_cost = node.num_tris as f32 * area(&node);
        let candidates = candidates_for(&bvh, index, SAH_BINS);
        let nodes_before = bvh.len();
        match bvh.split_node(&candidates, s(parent_cost)) {
            Split::Divided { choice } => {
                divided += 1;
                let cost = f(candidates[choice].cost);
                assert!(cost > 0.0 && cost < parent_cost);
                assert!(candidates.iter().all(|c| !(f(c.cost) > 0.0 && f(c.cost) < cost)));
                assert!(candidates[..choice].iter().all(|c| !(f(c.cost) > 0.0) || f(c.cost) > cost));
                assert_eq!(bvh.len(), nodes_before + 2);
                assert_eq!(bvh.node(index).num_tris, 0);
                assert_eq!(bvh.node(index).first_tri_or_child as usize, nodes_before);
                assert_eq!(bvh.next_pending(), Some(nodes_before));
            },
            Split::Kept => {
                assert_eq!(bvh.len(), nodes_before);
                assert_eq!(bvh.node(index).num_tris, node.num_tris);
            },
            Split::Idle => panic!("a leaf was waiting"),
        }
    }
    assert!(divided > 0);
}

#[test]
fn a_plane_that_costs_as_much_as_the_parent_does_not_split() {
    let a = triangle([-1.0, 0.0, 0.0], [0.0, 0.0, 0.0], [0.0, 1.0, 0.0], 0);
    let b = triangle([0.0, 0.0, 0.0], [3.0, 0.0, 0.0], [0.0, 1.0, 0.0], 1);
    let mut bvh = BVH::build(vec![a, b]);
    let plane = Candidate { axis: Axis::X, position: s(0.0), cost: s(5.0) };
    assert_eq!(bvh.split_node(&vec![plane], s(5.0)), Split::Kept);
    assert_eq!(bvh.len(), 1);
    assert_eq!(bvh.node(0).num_tris, 2);
    assert_eq!(bvh.next_pending(), None);
    assert_eq!(bvh.triangles()[0].material_id, 0);
}

#[test]
fn a_plane_with_all_triangles_on_one_side_does_not_split() {
    let a = triangle([-1.0, 0.0, 0.0], [0.0, 0.0, 0.0], [0.0, 1.0, 0.0], 0);
    let b = triangle([0.0, 0.0, 0.0], [3.0, 0.0, 0.0], [0.0, 1.0, 0.0], 1);
    for position in [-5.0f32, 5.0] {
        let mut bvh = BVH::build(vec![a, b]);
        let plane = Candidate { axis: Axis::X, position: s(position), cost: s(1.0) };
        assert_eq!(bvh.split_node(&vec![plane], s(5.0)), Split::Kept);
        assert_eq!(bvh.len(), 1);
        assert_eq!(bvh.node(0).num_tris, 2);
        let mut ids: Vec<usize> = bvh.triangles().iter().map(|t| t.material_id).collect();
        ids.sort();
        assert_eq!(ids, vec![0, 1]);
    }
}

#[test]
fn a_flat_scene_keeps_planes_without_cost_out() {
    let a = triangle([0.0, 0.0, 0.0], [1.0, 0.0, 0.0], [0.0, 1.0, 0.0], 0);
    let mut bvh = BVH::build(vec![a, a, a]);
    let candidates = candidates_for(&bvh, 0, SAH_BINS);
    assert!(candidates.iter().all(|c| !f(c.cost).is_nan() || f(c.rate()) == f32::MAX));
    let outcomes = refine(&mut bvh, SAH_BINS);
    assert_eq!(outcomes, vec![Split::Kept]);
    assert_eq!(bvh.len(), 1);
}

#[test]
fn the_best_candidate_is_the_first_cheapest() {
    let plane = |cost: f32| Candidate { axis: Axis::Y, position: s(0.0), cost: s(cost) };
    assert_eq!(best_split(&vec![plane(3.0), plane(2.0), plane(2.0), plane(4.0)]), Some(1));
    assert_eq!(best_split(&vec![plane(1.0), plane(1.0)]), Some(0));
    assert_eq!(best_split(&vec![plane(f32::NAN), plane(-1.0), plane(0.0), plane(7.0)]), Some(3));
    assert_eq!(best_split(&vec![plane(f32::NAN), plane(-1.0), plane(0.0)]), None);
    assert_eq!(best_split(&vec![plane(f32::MAX), plane(f32::INFINITY)]), None);
    assert_eq!(best_split(&Vec::new()), None);
    assert_eq!(f(plane(-2.0).rate()), f32::MAX);
    assert_eq!(f(plane(2.5).rate()), 2.5);
}

#[test]
fn evaluate_sah_counts_and_bounds_both_sides() {
    let a = triangle([-2.0, 0.0, 0.0], [-1.0, 0.0, 0.0], [-1.5, 1.0, 0.0], 0);
    let b = triangle([1.0, 0.0, 1.0], [2.0, 0.0, 1.0], [1.5, 3.0, 1.0], 1);
    let c = triangle([4.0, 0.0, 2.0], [5.0, 0.0, 2.0], [4.5, 1.0, 2.0], 2);
    let bvh = BVH::build(vec![a, b, c]);
    let tally = bvh.evaluate_sah(0, Axis::X, s(2.0));
    assert_eq!(tally.left.num_tris, 2);
    assert_eq!(tally.right.num_tris, 1);
    assert_eq!(bounds(&tally.left), ([-2.0, 0.0, 0.0], [2.0, 3.0, 1.0]));
    assert_eq!(bounds(&tally.right), ([4.0, 0.0, 2.0], [5.0, 1.0, 2.0]));
    let none_left = bvh.evaluate_sah(0, Axis::X, s(-1.5));
    assert_eq!(none_left.left.num_tris, 0);
    assert_eq!(none_left.right.num_tris, 3);
    assert_eq!(none_left.left.bounds_min.data[1].to_bits(), MAX_BITS);
    assert_eq!(none_left.left.bounds_max.data[1].to_bits(), LOWEST_BITS);
    let nan_plane = bvh.evaluate_sah(0, Axis::Z, s(f32::NAN));
    assert_eq!(nan_plane.left.num_tris, 0);
    assert_eq!(bvh.triangles()[0].material_id, 0);
}

#[test]
fn children_are_numbered_depth_first() {
    let mut tris = Vec::new();
    for k in 0..4 {
        let x = 10.0 * k as f32;
        tris.push(triangle([x, 0.0, 0.0], [x + 1.0, 0.0, 0.0], [x, 1.0, 0.0], k));
    }
    let mut bvh = BVH::build(tris);
    let plane = |position: f32| vec![Candidate { axis: Axis::X, position: s(position), cost: s(1.0) }];
    assert_eq!(bvh.split_node(&plane(15.0), s(2.0)), Split::Divided { choice: 0 });
    assert_eq!(bvh.next_pending(), Some(1));
    assert_eq!(bvh.split_node(&plane(5.0), s(2.0)), Split::Divided { choice: 0 });
    assert_eq!(bvh.next_pending(), Some(3));
    assert_eq!(bvh.split_node(&plane(5.0), s(2.0)), Split::Kept);
    assert_eq!(bvh.next_pending(), Some(4));
    assert_eq!(bvh.split_node(&Vec::new(), s(2.0)), Split::Kept);
    assert_eq!(bvh.next_pending(), Some(2));
    assert_eq!(bvh.split_node(&plane(25.0), s(2.0)), Split::Divided { choice: 0 });
    assert_eq!(refine(&mut bvh, SAH_BINS).len(), 2);
    assert_eq!(bvh.len(), 7);
    let shape: Vec<(u32, u32)> =
        (0..7).map(|n| (bvh.node(n).first_tri_or_child, bvh.node(n).num_tris)).collect();
    assert_eq!(shape, vec![(1, 0), (3, 0), (5, 0), (0, 1), (1, 1), (2, 1), (3, 1)]);
    let ids: Vec<usize> = bvh.triangles().iter().map(|t| t.material_id).collect();
    assert_eq!(ids, vec![0, 1, 2, 3]);
}

#[test]
fn refining_ends_within_the_work_bound() {
    let mut bvh = BVH::build(cloud(64, 5));
    let outcomes = refine(&mut bvh, SAH_BINS);
    assert!(outcomes.len() <= 2 * (2 * 64 + 1));
    assert!(bvh.len() <= 2 * 64 - 1);
    assert!(64 <= MAX_TRIANGLES);
}

#[test]
fn planes_are_tried_axis_by_axis_in_the_order_of_their_position() {
    assert_eq!(
        plane_order(2),
        vec![(Axis::X, 0), (Axis::X, 1), (Axis::Y, 0), (Axis::Y, 1), (Axis::Z, 0), (Axis::Z, 1)]
    );
    assert_eq!(plane_order(0), Vec::new());
    let fine = plane_order(SAH_BINS_FINE);
    assert_eq!(fine.len(), 48);
    assert_eq!(fine[15], (Axis::X, 15));
    assert_eq!(fine[16], (Axis::Y, 0));
    assert_eq!(fine[47], (Axis::Z, 15));
    assert_eq!(plane_order(SAH_BINS).len(), 24);
}
