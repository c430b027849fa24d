//! The bounding volume hierarchy: a flat array of nodes over a triangle
//! array that the hierarchy owns and sorts into per-leaf ranges.
//!
//! A hierarchy starts as one leaf over all triangles ([`BVH::build`]) and
//! is refined leaf by leaf ([`BVH::split_node`]). The cost of a candidate
//! plane is arithmetic and comes from the caller; which plane wins, whether
//! it is worth a split, and the split itself are decided here.

use vstd::prelude::*;
use crate::bvh::node::{lemma_grow_tight, lemma_same_bounds_tight, lemma_tight_nothing};
use crate::bvh::sides::partition;
use crate::bvh::tree::{
    lemma_divide_wf, lemma_leaf_count_le_total, lemma_shuffle_wf, lemma_under_leaf,
};
use crate::scalar::{Scalar, MAX_BITS, ZERO_BITS};
use crate::scene::Triangle;
use crate::vector::Axis;

pub mod node;
pub mod sides;
pub mod tree;

pub use crate::bvh::node::{empty_node, span, Node};
pub use crate::bvh::sides::{count_left, left_part, on_left, right_part};
pub use crate::bvh::tree::{leaf_count, leaf_total, lemma_node_count, under, Tree};

verus! {

/// The most triangles a hierarchy can hold: with them the node array still
/// has fewer than 2^32 entries.
pub const MAX_TRIANGLES: usize = 0x7fff_ffff;

/// The number of candidate planes per axis that the surface area heuristic
/// tries by default.
pub const SAH_BINS: usize = 8;

/// The number of candidate planes per axis for a finer, slower search.
pub const SAH_BINS_FINE: usize = 16;

/// The triangles and the node array of the hierarchy. Both are private: a
/// value of this type is made by [`BVH::build`] and refined by
/// [`BVH::split_node`] only, and every such value is well formed.
pub struct BVH {
    nodes: Vec<Node>,
    tris: Vec<Triangle>,
    pending: Vec<u32>,
    source: Ghost<Seq<Triangle>>,
    origin: Ghost<Seq<int>>,
    place: Ghost<Seq<int>>,
}

impl View for BVH {
    type V = Tree;

    closed spec fn view(&self) -> Tree {
        Tree {
            nodes: self.nodes@,
            tris: self.tris@,
            pending: self.pending@,
            source: self.source@,
            origin: self.origin@,
            place: self.place@,
        }
    }
}

/// What a plane does to a leaf: the triangles on either side, counted in
/// `num_tris`, with the tight bounds of each side.
#[derive(Clone, Copy, Debug)]
pub struct Tally {
    pub left: Node,
    pub right: Node,
}

/// A plane that a leaf may be split at, with the cost that the caller
/// worked out for it.
#[derive(Clone, Copy, Debug)]
pub struct Candidate {
    pub axis: Axis,
    pub position: Scalar,
    pub cost: Scalar,
}

impl Candidate {
    /// The cost as the choice sees it: the cost itself where it is above
    /// zero, else the largest finite value.
    pub open spec fn rated(self) -> Scalar {
        if (Scalar { bits: ZERO_BITS }).lt(self.cost) {
            self.cost
        } else {
            Scalar { bits: MAX_BITS }
        }
    }

    /// The cost as the choice sees it; see [`Candidate::rated`].
    pub fn rate(&self) -> (r: Scalar)
        ensures
            r == self.rated(),
    {
        if (Scalar { bits: ZERO_BITS }).less_than(self.cost) {
            self.cost
        } else {
            Scalar { bits: MAX_BITS }
        }
    }
}

/// Whether candidate `b` is the one to take: its rated cost is below the
/// largest finite value, no candidate is rated below it, and every earlier
/// candidate is rated above it.
pub open spec fn is_best(candidates: Seq<Candidate>, b: int) -> bool {
    &&& 0 <= b < candidates.len()
    &&& candidates[b].rated().lt(Scalar { bits: MAX_BITS })
    &&& forall|j: int|
        0 <= j < candidates.len() ==> !(#[trigger] candidates[j]).rated().lt(candidates[b].rated())
    &&& forall|j: int| 0 <= j < b ==> candidates[b].rated().lt((#[trigger] candidates[j]).rated())
}

/// Whether no candidate can be taken: none is rated below the largest finite
/// value.
pub open spec fn none_rated(candidates: Seq<Candidate>) -> bool {
    forall|j: int|
        0 <= j < candidates.len() ==> !(#[trigger] candidates[j]).rated().lt(
            Scalar { bits: MAX_BITS },
        )
}

/// The candidate with the least rated cost, the first of them where several
/// share it; none where no candidate is rated below the largest finite value.
pub fn best_split(candidates: &Vec<Candidate>) -> (r: Option<usize>)
    ensures
        r.is_some() ==> is_best(candidates@, r.unwrap() as int),
        r.is_none() ==> none_rated(candidates@),
{
    let mut best: Option<usize> = None;
    let mut best_cost: Scalar = Scalar { bits: MAX_BITS };
    let mut i: usize = 0;
    while i < candidates.len()
        invariant
            i <= candidates.len(),
            !best_cost.is_nan(),
            best.is_none() ==> best_cost == (Scalar { bits: MAX_BITS }) && none_rated(
                candidates@.take(i as int),
            ),
            best.is_some() ==> best.unwrap() < i && best_cost == candidates[best.unwrap() as int].rated()
                && is_best(candidates@.take(i as int), best.unwrap() as int),
        decreases candidates.len() - i,
    {
        let cost: Scalar = candidates[i].rate();
        let ghost seen = candidates@.take(i as int);
        let ghost more = candidates@.take(i + 1);
        assert(forall|j: int| 0 <= j < i ==> more[j] == seen[j]);
        assert(more[i as int] == candidates[i as int]);
        if cost.less_than(best_cost) {
            proof {
                assert forall|j: int| 0 <= j < i implies cost.lt((#[trigger] more[j]).rated()) by {
                    assert(more[j] == seen[j]);
                    if best.is_some() {
                        assert(!seen[j].rated().lt(best_cost));
                    } else {
                        assert(!seen[j].rated().lt(Scalar { bits: MAX_BITS }));
                    }
                    assert(!seen[j].rated().is_nan());
                }
            }
            best = Some(i);
            best_cost = cost;
        } else {
            proof {
                if best.is_some() {
                    let b = best.unwrap() as int;
                    assert forall|j: int| 0 <= j < more.len() implies !(#[trigger] more[j]).rated().lt(
                        more[b].rated(),
                    ) by {
                        if j < i {
                            assert(more[j] == seen[j]);
                        }
                    }
                    assert forall|j: int| 0 <= j < b implies more[b].rated().lt(
                        (#[trigger] more[j]).rated(),
                    ) by {
                        assert(more[j] == seen[j]);
                    }
                } else {
                    assert forall|j: int| 0 <= j < more.len() implies !(#[trigger] more[j]).rated().lt(
                        Scalar { bits: MAX_BITS },
                    ) by {
                        if j < i {
                            assert(more[j] == seen[j]);
                        }
                    }
                }
            }
        }
        i += 1;
    }
    assert(candidates@.take(i as int) =~= candidates@);
    best
}

/// Slot `k` of the candidate planes of a leaf, with `bins` planes per axis:
/// the axis and the number of the plane on it.
pub open spec fn plane_slot(bins: int, k: int) -> (Axis, usize) {
    (
        if k < bins {
            Axis::X
        } else if k < 2 * bins {
            Axis::Y
        } else {
            Axis::Z
        },
        (k % bins) as usize,
    )
}

/// The order in which the candidate planes of a leaf are tried: the planes
/// across the first axis before those across the second and the third, and
/// on each axis the planes in the order of their number, which is the order
/// of their position. Among planes of equal cost the one tried first wins.
pub fn plane_order(bins: usize) -> (r: Vec<(Axis, usize)>)
    requires
        3 * bins <= usize::MAX,
    ensures
        r.len() == 3 * bins,
        forall|k: int| 0 <= k < r.len() ==> #[trigger] r[k] == plane_slot(bins as int, k),
{
    let mut out: Vec<(Axis, usize)> = Vec::new();
    let mut a: usize = 0;
    while a < 3
        invariant
            a <= 3,
            3 * bins <= usize::MAX,
            out.len() == a * bins,
            forall|k: int| 0 <= k < out.len() ==> #[trigger] out[k] == plane_slot(bins as int, k),
        decreases 3 - a,
    {
        let axis: Axis = if a == 0 {
            Axis::X
        } else if a == 1 {
            Axis::Y
        } else {
            Axis::Z
        };
        let mut bin: usize = 0;
        while bin < bins
            invariant
                bin <= bins,
                a < 3,
                3 * bins <= usize::MAX,
                axis == if a == 0 {
                    Axis::X
                } else if a == 1 {
                    Axis::Y
                } else {
                    Axis::Z
                },
                out.len() == a * bins + bin,
                forall|k: int| 0 <= k < out.len() ==> #[trigger] out[k] == plane_slot(bins as int, k),
            decreases bins - bin,
        {
            proof {
                let k = a * bins + bin;
                assert(k % (bins as int) == bin && k / (bins as int) == a) by (nonlinear_arith)
                    requires
                        k == a * bins + bin,
                        0 <= bin < bins,
                        0 <= a,
                ;
                assert(a * bins + bin < 3 * bins) by (nonlinear_arith)
                    requires
                        a < 3,
                        bin < bins,
                ;
                assert(a == 0 ==> k < bins);
                assert(a == 1 ==> bins <= k < 2 * bins) by (nonlinear_arith)
                    requires
                        k == a * bins + bin,
                        0 <= bin < bins,
                ;
                assert(a == 2 ==> 2 * bins <= k) by (nonlinear_arith)
                    requires
                        k == a * bins + bin,
                        0 <= bin < bins,
                ;
            }
            out.push((axis, bin));
            bin += 1;
        }
        proof {
            assert(a * bins + bins == (a + 1) * bins) by (nonlinear_arith);
        }
        a += 1;
    }
    out
}

/// What [`BVH::split_node`] did.
#[derive(Clone, Copy, Debug, PartialEq, Eq, Structural)]
pub enum Split {
    /// No leaf was waiting: nothing changed.
    Idle,
    /// The leaf that was considered stays a leaf.
    Kept,
    /// The leaf became an interior node over two new leaves, at the plane of
    /// candidate `choice`.
    Divided { choice: usize },
}

impl BVH {
    /// The number of nodes.
    pub fn len(&self) -> (r: usize)
        ensures
            r == self@.nodes.len(),
    {
        self.nodes.len()
    }

    /// Node `index`.
    pub fn node(&self, index: usize) -> (r: Node)
        requires
            index < self@.nodes.len(),
        ensures
            r == self@.nodes[index as int],
    {
        self.nodes[index]
    }

    /// The node array; the root is its first entry.
    pub fn nodes(&self) -> (r: &Vec<Node>)
        ensures
            r@ == self@.nodes,
    {
        &self.nodes
    }

    /// The triangles in the order that the leaves index.
    pub fn triangles(&self) -> (r: &Vec<Triangle>)
        ensures
            r@ == self@.tris,
    {
        &self.tris
    }

    /// The leaf that [`BVH::split_node`] considers next, if one is left.
    pub fn next_pending(&self) -> (r: Option<usize>)
        ensures
            r.is_none() <==> self@.complete(),
            r.is_some() ==> r.unwrap() == self@.pending.last(),
    {
        let n: usize = self.pending.len();
        if n == 0 {
            None
        } else {
            Some(self.pending[n - 1] as usize)
        }
    }

    /// Starts a hierarchy over `tris`: one root that is a leaf over all of
    /// them, with their tight bounds, waiting to be split. Without triangles
    /// the root holds nothing and nothing waits.
    pub fn build(tris: Vec<Triangle>) -> (bvh: BVH)
        requires
            tris.len() <= MAX_TRIANGLES,
        ensures
            bvh@.wf(),
            bvh@.tris == tris@,
            bvh@.source == tris@,
            forall|i: int| 0 <= i < tris.len() ==> #[trigger] bvh@.origin[i] == i && bvh@.place[i] == i,
            bvh@.nodes.len() == 1,
            bvh@.nodes[0].first_tri_or_child == 0,
            bvh@.nodes[0].num_tris == tris.len(),
            bvh@.nodes[0].tight(tris@, span(0, tris.len() as int)),
            bvh@.pending == if tris.len() > 0 {
                seq![0u32]
            } else {
                Seq::<u32>::empty()
            },
    {
        let count: usize = tris.len();
        let root: Node = leaf_over(&tris, 0, count);
        proof {
            if count == 0 {
                lemma_tight_nothing(root, tris@);
            }
        }
        let mut nodes: Vec<Node> = Vec::new();
        nodes.push(root);
        let mut pending: Vec<u32> = Vec::new();
        if count > 0 {
            pending.push(0);
        }
        let ghost identity = Seq::new(count as nat, |i: int| i);
        let bvh = BVH {
            nodes,
            tris,
            pending,
            source: Ghost(tris@),
            origin: Ghost(identity),
            place: Ghost(identity),
        };
        proof {
            let tree = bvh@;
            assert(tree.nodes =~= seq![root]);
            assert(tree.nodes.drop_last() =~= Seq::<Node>::empty());
            assert(leaf_count(tree.nodes.drop_last()) == 0);
            assert(leaf_total(tree.nodes.drop_last()) == 0);
            assert(tree.nodes[0] == root);
            if count == 0 {
                assert(root == empty_node());
            }
            assert(tree.node_ok(0));
            assert forall|t: int| 0 <= t < tree.tris.len() implies under(tree.nodes, 0, t) by {
                assert(tree.nodes[0].has(t));
            }
        }
        bvh
    }
}

/// A leaf over the triangles `first .. first + count`, with their tight
/// bounds.
fn leaf_over(tris: &Vec<Triangle>, first: usize, count: usize) -> (r: Node)
    requires
        first + count <= tris.len(),
        tris.len() <= MAX_TRIANGLES,
    ensures
        r.first_tri_or_child == first,
        r.num_tris == count,
        r.tight(tris@, span(first as int, first + count)),
{
    let mut node = Node::default();
    let mut i: usize = 0;
    assert(span(first as int, first as int) =~= Set::<int>::empty());
    while i < count
        invariant
            i <= count,
            first + count <= tris.len(),
            node.first_tri_or_child == 0,
            node.num_tris == 0,
            node.tight(tris@, span(first as int, first + i)),
        decreases count - i,
    {
        let ghost before = node;
        node.grow_by_tri(&tris[first + i]);
        proof {
            lemma_grow_tight(before, node, tris@, span(first as int, first + i), first + i);
            assert(span(first as int, first + i).insert(first + i) =~= span(
                first as int,
                first + i + 1,
            ));
        }
        i += 1;
    }
    let ghost grown = node;
    node.first_tri_or_child = first as u32;
    node.num_tris = count as u32;
    proof {
        lemma_same_bounds_tight(grown, node, tris@, span(first as int, first + count));
    }
    node
}

impl BVH {
    /// Sorts the triangles of node `index` to the two sides of the plane at
    /// `position` across `axis`, without moving them: each side with its
    /// count and its tight bounds. An interior node holds no triangles, so
    /// both sides come out empty.
    pub fn evaluate_sah(&self, index: usize, axis: Axis, position: Scalar) -> (r: Tally)
        requires
            self@.wf(),
            index < self@.nodes.len(),
        ensures
            ({
                let node = self@.nodes[index as int];
                let lo = node.first_tri_or_child as int;
                let hi = node.first_tri_or_child + node.num_tris;
                &&& r.left.num_tris == count_left(self@.tris, lo, hi, axis, position)
                &&& r.left.num_tris + r.right.num_tris == node.num_tris
                &&& r.left.tight(self@.tris, left_part(self@.tris, lo, hi, axis, position))
                &&& r.right.tight(self@.tris, right_part(self@.tris, lo, hi, axis, position))
                &&& r.left.first_tri_or_child == 0
                &&& r.right.first_tri_or_child == 0
            }),
    {
        let node: Node = self.nodes[index];
        let first: usize = node.first_tri_or_child as usize;
        let count: usize = node.num_tris as usize;
        let mut left = Node::default();
        let mut right = Node::default();
        let mut i: usize = 0;
        proof {
            assert(self@.node_ok(index as int));
            assert(left_part(self@.tris, first as int, first as int, axis, position) =~= Set::<
                int,
            >::empty());
            assert(right_part(self@.tris, first as int, first as int, axis, position) =~= Set::<
                int,
            >::empty());
        }
        while i < count
            invariant
                i <= count,
                count > 0 ==> first + count <= self.tris.len(),
                self.tris.len() <= MAX_TRIANGLES,
                self@.tris == self.tris@,
                left.first_tri_or_child == 0,
                right.first_tri_or_child == 0,
                left.num_tris == count_left(self.tris@, first as int, first + i, axis, position),
                left.num_tris + right.num_tris == i,
                left.tight(self.tris@, left_part(self.tris@, first as int, first + i, axis, position)),
                right.tight(
                    self.tris@,
                    right_part(self.tris@, first as int, first + i, axis, position),
                ),
            decreases count - i,
        {
            let tri: &Triangle = &self.tris[first + i];
            let ghost t = first + i;
            let ghost lefts = left_part(self.tris@, first as int, t, axis, position);
            let ghost rights = right_part(self.tris@, first as int, t, axis, position);
            if tri.centroid.along(axis).less_than(position) {
                let ghost before = left;
                left.grow_by_tri(tri);
                let ghost grown = left;
                left.num_tris += 1;
                proof {
                    lemma_grow_tight(before, grown, self.tris@, lefts, t);
                    lemma_same_bounds_tight(grown, left, self.tris@, lefts.insert(t));
                    assert(lefts.insert(t) =~= left_part(
                        self.tris@,
                        first as int,
                        t + 1,
                        axis,
                        position,
                    ));
                    assert(rights =~= right_part(self.tris@, first as int, t + 1, axis, position));
                }
            } else {
                let ghost before = right;
                right.grow_by_tri(tri);
                let ghost grown = right;
                right.num_tris += 1;
                proof {
                    lemma_grow_tight(before, grown, self.tris@, rights, t);
                    lemma_same_bounds_tight(grown, right, self.tris@, rights.insert(t));
                    assert(rights.insert(t) =~= right_part(
                        self.tris@,
                        first as int,
                        t + 1,
                        axis,
                        position,
                    ));
                    assert(lefts =~= left_part(self.tris@, first as int, t + 1, axis, position));
                }
            }
            i += 1;
        }
        Tally { left, right }
    }
}

impl BVH {
    /// Considers the leaf that waits next, and divides it at the best of
    /// `candidates` if that is called for.
    ///
    /// The leaf is divided exactly if some candidate is rated below the
    /// largest finite value, the best of them is rated strictly below
    /// `parent_cost`, and its plane has triangles of the leaf on both sides.
    /// The triangles of the leaf are then sorted to the two sides of the
    /// plane, the leaf becomes an interior node, and the two sides become
    /// new leaves with their tight bounds, which wait in turn. Otherwise the
    /// leaf stays as it is. Either way it no longer waits.
    pub fn split_node(&mut self, candidates: &Vec<Candidate>, parent_cost: Scalar) -> (r: Split)
        requires
            old(self)@.wf(),
        ensures
            final(self)@.wf(),
            old(self)@.split_outcome(final(self)@, candidates@, parent_cost, r),
    {
        let ghost start = self@;
        let waiting: usize = self.pending.len();
        if waiting == 0 {
            return Split::Idle;
        }
        assert(start.pending[waiting - 1] < start.nodes.len());
        let index: usize = self.pending[waiting - 1] as usize;
        let node: Node = self.nodes[index];
        let first: usize = node.first_tri_or_child as usize;
        let count: usize = node.num_tris as usize;
        self.pending.pop();
        let ghost popped = self@;
        proof {
            assert(popped.pending =~= start.pending.drop_last());
            assert(start.node_ok(index as int));
            assert forall|n: int| 0 <= n < popped.nodes.len() implies #[trigger] popped.node_ok(
                n,
            ) by {
                assert(start.node_ok(n));
            }
            assert forall|j: int| 0 <= j < popped.pending.len() implies (#[trigger] popped.pending[j])
                < popped.nodes.len() && popped.nodes[popped.pending[j] as int].num_tris > 0 by {
                assert(popped.pending[j] == start.pending[j]);
            }
            assert forall|j: int, k: int| 0 <= j < k < popped.pending.len() implies #[trigger] popped.pending[j]
                != #[trigger] popped.pending[k] by {
                assert(popped.pending[j] == start.pending[j]);
                assert(popped.pending[k] == start.pending[k]);
            }
            assert(popped.wf());
            assert(start.rearranged(popped, first as int, first + count));
        }
        let best: Option<usize> = best_split(candidates);
        let choice: usize = match best {
            None => {
                return Split::Kept;
            },
            Some(b) => b,
        };
        let taken: Candidate = candidates[choice];
        if !taken.rate().less_than(parent_cost) {
            proof {
                assert forall|b: int| !start.splits_at(candidates@, parent_cost, b) by {
                    if is_best(candidates@, b) {
                        assert(b == choice) by {
                            if b < choice {
                                assert(candidates@[choice as int].rated().lt(candidates@[b].rated()));
                                assert(!candidates@[choice as int].rated().lt(candidates@[b].rated()));
                            }
                            if choice < b {
                                assert(candidates@[b].rated().lt(candidates@[choice as int].rated()));
                                assert(!candidates@[b].rated().lt(candidates@[choice as int].rated()));
                            }
                        }
                    }
                }
            }
            return Split::Kept;
        }
        let (mid, Ghost(fwd), Ghost(bwd)) = partition(
            &mut self.tris,
            first,
            count,
            taken.axis,
            taken.position,
        );
        proof {
            self.origin@ = Seq::new(popped.tris.len(), |t: int| popped.origin[fwd[t]]);
            self.place@ = Seq::new(popped.tris.len(), |k: int| bwd[popped.place[k]]);
        }
        let ghost sorted = self@;
        proof {
            lemma_shuffle_wf(popped, sorted, index as int, fwd, bwd);
            assert(start.rearranged(sorted, first as int, first + count));
        }
        if mid == first || mid == first + count {
            proof {
                assert forall|b: int| !start.splits_at(candidates@, parent_cost, b) by {
                    if is_best(candidates@, b) {
                        assert(b == choice) by {
                            if b < choice {
                                assert(candidates@[choice as int].rated().lt(candidates@[b].rated()));
                                assert(!candidates@[choice as int].rated().lt(candidates@[b].rated()));
                            }
                            if choice < b {
                                assert(candidates@[b].rated().lt(candidates@[choice as int].rated()));
                                assert(!candidates@[b].rated().lt(candidates@[choice as int].rated()));
                            }
                        }
                    }
                }
            }
            return Split::Kept;
        }
        proof {
            lemma_leaf_count_le_total(sorted.nodes);
        }
        let left: Node = leaf_over(&self.tris, first, mid - first);
        let right: Node = leaf_over(&self.tris, mid, first + count - mid);
        let child: u32 = self.nodes.len() as u32;
        self.nodes[index] = Node {
            bounds_min: node.bounds_min,
            first_tri_or_child: child,
            bounds_max: node.bounds_max,
            num_tris: 0,
        };
        self.nodes.push(left);
        self.nodes.push(right);
        self.pending.push(child + 1);
        self.pending.push(child);
        proof {
            let done = self@;
            let waiting_tree = Tree { pending: start.pending, ..sorted };
            assert(waiting_tree.wf()) by {
                assert forall|n: int| 0 <= n < waiting_tree.nodes.len() implies #[trigger] waiting_tree.node_ok(
                    n,
                ) by {
                    assert(sorted.node_ok(n));
                }
            }
            assert(done.nodes =~= sorted.nodes.update(index as int, done.nodes[index as int]).push(
                left,
            ).push(right));
            lemma_divide_wf(waiting_tree, done, left, right);
            assert(start.rearranged(done, first as int, first + count));
            assert(start.splits_at(candidates@, parent_cost, choice as int));
        }
        Split::Divided { choice }
    }
}

/// The bounds of a node enclose every triangle that a descent from it finds.
pub proof fn law_bounds_enclose_subtree(tree: Tree, n: int, t: int)
    requires
        tree.wf(),
        under(tree.nodes, n, t),
    ensures
        0 <= t < tree.tris.len(),
        tree.nodes[n].encloses(tree.tris[t]),
    decreases tree.nodes.len() - n,
{
    let node = tree.nodes[n];
    assert(tree.node_ok(n));
    if node.num_tris == 0 {
        let c = node.first_tri_or_child as int;
        let k = if under(tree.nodes, c, t) {
            c
        } else {
            c + 1
        };
        law_bounds_enclose_subtree(tree, k, t);
        let child = tree.nodes[k];
        assert forall|v: int, ax: int| 0 <= v < 3 && 0 <= ax < 3 implies node.spans(
            ax,
            #[trigger] tree.tris[t].coord(v, ax),
        ) by {
            assert(node.hull_on(tree.nodes[c], tree.nodes[c + 1], ax));
            assert(child.spans(ax, tree.tris[t].coord(v, ax)));
        }
    }
}

/// The ranges of the leaves partition the triangle indices: every index lies
/// in the range of exactly one leaf, a descent from the root finds it, and
/// the leaves together hold as many triangles as there are.
pub proof fn law_leaves_partition(tree: Tree, t: int) -> (n: int)
    requires
        tree.wf(),
        0 <= t < tree.tris.len(),
    ensures
        0 <= n < tree.nodes.len(),
        tree.nodes[n].has(t),
        forall|m: int| 0 <= m < tree.nodes.len() && tree.nodes[m].has(t) ==> m == n,
        under(tree.nodes, 0, t),
        leaf_total(tree.nodes) == tree.tris.len(),
{
    let n = lemma_under_leaf(tree.nodes, 0, t);
    assert forall|m: int| 0 <= m < tree.nodes.len() && tree.nodes[m].has(t) implies m == n by {
        assert(tree.nodes[m].has(t) && tree.nodes[n].has(t));
    }
    n
}

/// Every triangle that was handed in sits in exactly one leaf, at the index
/// `place[k]`, and the bounds of that leaf enclose its corners. Where its
/// midpoint lies between its corners, the bounds enclose the midpoint too.
pub proof fn law_triangle_in_one_leaf(tree: Tree, k: int) -> (n: int)
    requires
        tree.wf(),
        0 <= k < tree.source.len(),
    ensures
        0 <= tree.place[k] < tree.tris.len(),
        tree.tris[tree.place[k]] == tree.source[k],
        0 <= n < tree.nodes.len(),
        tree.nodes[n].has(tree.place[k]),
        forall|m: int| 0 <= m < tree.nodes.len() && tree.nodes[m].has(tree.place[k]) ==> m == n,
        tree.nodes[n].encloses(tree.source[k]),
        tree.source[k].centred() ==> forall|ax: int|
            0 <= ax < 3 ==> tree.nodes[n].spans(ax, #[trigger] tree.source[k].mid_coord(ax)),
{
    let t = tree.place[k];
    assert(tree.origin[t] == k);
    let n = law_leaves_partition(tree, t);
    let node = tree.nodes[n];
    let tri = tree.source[k];
    assert(tree.node_ok(n));
    assert(node.encloses(tree.tris[t]));
    if tri.centred() {
        assert forall|ax: int| 0 <= ax < 3 implies node.spans(ax, #[trigger] tri.mid_coord(ax)) by {
            assert(tri.centred_on(ax));
            let (v, w) = choose|v: int, w: int|
                0 <= v < 3 && 0 <= w < 3 && (#[trigger] tri.coord(v, ax)).le(tri.mid_coord(ax))
                    && tri.mid_coord(ax).le(#[trigger] tri.coord(w, ax));
            assert(node.spans(ax, tri.coord(v, ax)));
            assert(node.spans(ax, tri.coord(w, ax)));
        }
    }
    n
}

/// A leaf is divided only at a plane whose cost is above zero and strictly
/// below the cost of leaving the leaf whole.
pub proof fn law_split_cost_below_parent(
    tree: Tree,
    candidates: Seq<Candidate>,
    parent_cost: Scalar,
    b: int,
)
    requires
        tree.splits_at(candidates, parent_cost, b),
    ensures
        (Scalar { bits: ZERO_BITS }).lt(candidates[b].cost),
        candidates[b].cost.lt(parent_cost),
{
}

/// Every call of `split_node` that finds a leaf waiting uses up work, and
/// the work never runs below zero: refining a hierarchy comes to an end.
pub proof fn law_split_progress(
    before: Tree,
    after: Tree,
    candidates: Seq<Candidate>,
    parent_cost: Scalar,
    r: Split,
)
    requires
        before.wf(),
        after.wf(),
        before.split_outcome(after, candidates, parent_cost, r),
    ensures
        !(r is Idle) ==> after.work() < before.work(),
        0 <= after.work(),
{
    lemma_leaf_count_le_total(after.nodes);
}

} // verus!
