//! The hierarchy as mathematics: the shape of the node array, what makes
//! it well formed, and why sorting a leaf and dividing it keep it so.

use vstd::prelude::*;
use crate::bvh::node::{
    empty_node, lemma_hull_of_halves, lemma_hull_same_bounds, lemma_tight_shuffled, span, Node,
};
use crate::bvh::sides::{count_left, on_left, shuffled};
use crate::bvh::{is_best, Candidate, Split, MAX_TRIANGLES};
use crate::scalar::Scalar;
use crate::scene::Triangle;

verus! {

/// What a hierarchy is, as mathematics.
pub struct Tree {
    /// The node array; the root is node 0.
    pub nodes: Seq<Node>,
    /// The triangles in their current order.
    pub tris: Seq<Triangle>,
    /// The leaves that have not been considered for a split yet; the last
    /// one is considered next.
    pub pending: Seq<u32>,
    /// The triangles in the order in which they were handed in.
    pub source: Seq<Triangle>,
    /// For each current index, the index that the triangle had in `source`.
    pub origin: Seq<int>,
    /// For each index of `source`, the index where that triangle is now.
    pub place: Seq<int>,
}

/// Whether triangle index `t` is found by descending from node `n`: in the
/// range of `n` if `n` is a leaf, else below one of its two children.
pub open spec fn under(nodes: Seq<Node>, n: int, t: int) -> bool
    decreases nodes.len() - n,
{
    if 0 <= n < nodes.len() {
        let node = nodes[n];
        if node.num_tris > 0 {
            node.has(t)
        } else {
            let c = node.first_tri_or_child as int;
            n < c && c + 1 < nodes.len() && (under(nodes, c, t) || under(nodes, c + 1, t))
        }
    } else {
        false
    }
}

/// The number of leaves among `nodes`.
pub open spec fn leaf_count(nodes: Seq<Node>) -> int
    decreases nodes.len(),
{
    if nodes.len() == 0 {
        0
    } else {
        leaf_count(nodes.drop_last()) + if nodes.last().num_tris > 0 {
            1int
        } else {
            0int
        }
    }
}

/// The sum of `num_tris` over `nodes`: the triangles that the leaves hold.
pub open spec fn leaf_total(nodes: Seq<Node>) -> int
    decreases nodes.len(),
{
    if nodes.len() == 0 {
        0
    } else {
        leaf_total(nodes.drop_last()) + nodes.last().num_tris
    }
}

impl Tree {
    /// `tris` is `source` reordered: `origin` and `place` are inverse
    /// bijections between the two.
    pub open spec fn reordered(self) -> bool {
        &&& self.source.len() == self.tris.len()
        &&& self.origin.len() == self.tris.len()
        &&& self.place.len() == self.tris.len()
        &&& forall|i: int|
            0 <= i < self.tris.len() ==> {
                &&& 0 <= #[trigger] self.origin[i] < self.tris.len()
                &&& self.place[self.origin[i]] == i
                &&& self.tris[i] == self.source[self.origin[i]]
            }
        &&& forall|k: int|
            0 <= k < self.tris.len() ==> {
                &&& 0 <= #[trigger] self.place[k] < self.tris.len()
                &&& self.origin[self.place[k]] == k
            }
    }

    /// Node `n` is a leaf over a range of existing triangles with tight
    /// bounds, or an interior node whose two children come later in the
    /// array and whose bounds are the hull of theirs. The root of a hierarchy without triangles is neither: it is a
    /// leaf that holds nothing.
    pub open spec fn node_ok(self, n: int) -> bool {
        let node = self.nodes[n];
        if node.num_tris > 0 {
            &&& node.first_tri_or_child + node.num_tris <= self.tris.len()
            &&& node.tight(
                self.tris,
                span(node.first_tri_or_child as int, node.first_tri_or_child + node.num_tris),
            )
        } else if self.tris.len() == 0 {
            node == empty_node()
        } else {
            &&& n < node.first_tri_or_child
            &&& node.first_tri_or_child + 1 < self.nodes.len()
            &&& node.hull_of(
                self.nodes[node.first_tri_or_child as int],
                self.nodes[node.first_tri_or_child + 1],
            )
        }
    }

    /// Whether the hierarchy is well formed: it holds no more triangles than
    /// it can, it has one node less than twice its leaves, the leaves hold
    /// all triangles between them, the triangles are those handed in, every
    /// node is in order, no triangle index lies in two leaves, a descent
    /// from the root finds every triangle, and the nodes that wait are
    /// leaves, each waiting once.
    pub open spec fn wf(self) -> bool {
        &&& self.tris.len() <= MAX_TRIANGLES
        &&& self.nodes.len() >= 1
        &&& self.tris.len() == 0 ==> self.nodes.len() == 1
        &&& self.tris.len() > 0 ==> self.nodes.len() == 2 * leaf_count(self.nodes) - 1
        &&& leaf_total(self.nodes) == self.tris.len()
        &&& self.reordered()
        &&& forall|n: int| 0 <= n < self.nodes.len() ==> #[trigger] self.node_ok(n)
        &&& forall|m: int, n: int, t: int|
            0 <= m < self.nodes.len() && 0 <= n < self.nodes.len() && #[trigger] self.nodes[m].has(t)
                && #[trigger] self.nodes[n].has(t) ==> m == n
        &&& forall|t: int| 0 <= t < self.tris.len() ==> under(self.nodes, 0, t)
        &&& forall|j: int|
            0 <= j < self.pending.len() ==> (#[trigger] self.pending[j]) < self.nodes.len()
                && self.nodes[self.pending[j] as int].num_tris > 0
        &&& forall|j: int, k: int|
            0 <= j < k < self.pending.len() ==> #[trigger] self.pending[j] != #[trigger] self.pending[k]
    }

    /// Whether every leaf has been considered for a split.
    pub open spec fn complete(self) -> bool {
        self.pending.len() == 0
    }

    /// The leaf that is considered next.
    pub open spec fn front(self) -> Node {
        self.nodes[self.pending.last() as int]
    }

    /// Whether splitting the leaf considered next at candidate `b` is called
    /// for: `b` is the best candidate, its rated cost is strictly below
    /// `parent_cost`, and its plane has triangles of the leaf on both sides.
    pub open spec fn splits_at(self, candidates: Seq<Candidate>, parent_cost: Scalar, b: int) -> bool {
        let lo = self.front().first_tri_or_child as int;
        let hi = self.front().first_tri_or_child + self.front().num_tris;
        &&& is_best(candidates, b)
        &&& candidates[b].rated().lt(parent_cost)
        &&& 0 < count_left(self.tris, lo, hi, candidates[b].axis, candidates[b].position)
            < self.front().num_tris
    }

    /// Whether `after` holds the triangles of `self` with those at `lo .. hi`
    /// reordered among themselves and all others where they were.
    pub open spec fn rearranged(self, after: Tree, lo: int, hi: int) -> bool {
        &&& after.source == self.source
        &&& after.tris.len() == self.tris.len()
        &&& forall|t: int|
            0 <= t < self.tris.len() ==> {
                &&& lo <= t < hi ==> lo <= self.place[#[trigger] after.origin[t]] < hi
                &&& !(lo <= t < hi) ==> after.origin[t] == self.origin[t] && after.tris[t]
                    == self.tris[t]
            }
    }

    /// Whether no plane is tried on the leaf considered next: no candidate
    /// is the best with a rated cost strictly below `parent_cost`. The
    /// triangles then stay where they are.
    pub open spec fn untried(self, candidates: Seq<Candidate>, parent_cost: Scalar) -> bool {
        forall|b: int| !(is_best(candidates, b) && (#[trigger] candidates[b]).rated().lt(parent_cost))
    }

    /// The state after [`BVH::split_node`] has left the leaf considered next
    /// as it is: the nodes are the same, the leaf no longer waits, and its
    /// triangles may have been reordered among themselves.
    pub open spec fn kept(self, after: Tree) -> bool {
        let lo = self.front().first_tri_or_child as int;
        let hi = self.front().first_tri_or_child + self.front().num_tris;
        &&& after.nodes == self.nodes
        &&& after.pending == self.pending.drop_last()
        &&& self.rearranged(after, lo, hi)
    }

    /// The state after [`BVH::split_node`] has divided the leaf considered
    /// next at the plane of `taken`: the leaf is an interior node over two
    /// new leaves at the end of the array, the first over the triangles on
    /// the left of the plane, as many as [`count_left`] counts, the second
    /// over the others; the triangles of
    /// the leaf are sorted accordingly; the second leaf waits, and the first
    /// is considered next.
    pub open spec fn split(self, after: Tree, taken: Candidate) -> bool {
        let p = self.pending.last() as int;
        let lo = self.front().first_tri_or_child as int;
        let hi = self.front().first_tri_or_child + self.front().num_tris;
        let c = self.nodes.len() as int;
        &&& after.nodes.len() == c + 2
        &&& divided(self.nodes, after.nodes, p, after.nodes[c], after.nodes[c + 1])
        &&& after.pending == self.pending.drop_last().push((c + 1) as u32).push(c as u32)
        &&& self.rearranged(after, lo, hi)
        &&& after.nodes[c].num_tris == count_left(self.tris, lo, hi, taken.axis, taken.position)
        &&& forall|t: int|
            lo <= t < lo + after.nodes[c].num_tris ==> on_left(
                #[trigger] after.tris[t],
                taken.axis,
                taken.position,
            )
        &&& forall|t: int|
            lo + after.nodes[c].num_tris <= t < hi ==> !on_left(
                #[trigger] after.tris[t],
                taken.axis,
                taken.position,
            )
    }

    /// What [`BVH::split_node`] returns on `self`, and the state that it
    /// leaves.
    pub open spec fn split_outcome(
        self,
        after: Tree,
        candidates: Seq<Candidate>,
        parent_cost: Scalar,
        r: Split,
    ) -> bool {
        match r {
            Split::Idle => self.complete() && after == self,
            Split::Kept => {
                &&& !self.complete()
                &&& forall|b: int| !self.splits_at(candidates, parent_cost, b)
                &&& self.kept(after)
                &&& self.untried(candidates, parent_cost) ==> after == (Tree {
                    pending: self.pending.drop_last(),
                    ..self
                })
            },
            Split::Divided { choice } => {
                &&& !self.complete()
                &&& self.splits_at(candidates, parent_cost, choice as int)
                &&& self.split(after, candidates[choice as int])
            },
        }
    }

    /// An upper bound on the calls of [`BVH::split_node`] that can still
    /// change the hierarchy.
    pub open spec fn work(self) -> int {
        2 * (2 * self.tris.len() + 1 - self.nodes.len()) + self.pending.len()
    }
}

/// Appending a node adds its share to the two sums over the leaves.
pub proof fn lemma_sums_push(nodes: Seq<Node>, node: Node)
    ensures
        leaf_count(nodes.push(node)) == leaf_count(nodes) + if node.num_tris > 0 {
            1int
        } else {
            0int
        },
        leaf_total(nodes.push(node)) == leaf_total(nodes) + node.num_tris,
{
    assert(nodes.push(node).drop_last() =~= nodes);
}

/// Replacing a node exchanges its share of the two sums over the leaves.
pub proof fn lemma_sums_update(nodes: Seq<Node>, n: int, node: Node)
    requires
        0 <= n < nodes.len(),
    ensures
        leaf_count(nodes.update(n, node)) == leaf_count(nodes) - (if nodes[n].num_tris > 0 {
            1int
        } else {
            0int
        }) + (if node.num_tris > 0 {
            1int
        } else {
            0int
        }),
        leaf_total(nodes.update(n, node)) == leaf_total(nodes) - nodes[n].num_tris + node.num_tris,
    decreases nodes.len(),
{
    if n == nodes.len() - 1 {
        assert(nodes.update(n, node).drop_last() =~= nodes.drop_last());
    } else {
        assert(nodes.update(n, node).drop_last() =~= nodes.drop_last().update(n, node));
        lemma_sums_update(nodes.drop_last(), n, node);
    }
}

/// No more leaves than triangles in them: every leaf holds at least one.
pub proof fn lemma_leaf_count_le_total(nodes: Seq<Node>)
    ensures
        0 <= leaf_count(nodes) <= leaf_total(nodes),
    decreases nodes.len(),
{
    if nodes.len() > 0 {
        lemma_leaf_count_le_total(nodes.drop_last());
    }
}

/// A hierarchy has fewer than two nodes per triangle, so every node index
/// fits in 32 bits.
pub proof fn lemma_node_count(tree: Tree)
    requires
        tree.wf(),
    ensures
        tree.nodes.len() <= 2 * tree.tris.len() + 1,
        tree.nodes.len() + 2 <= u32::MAX,
{
    lemma_leaf_count_le_total(tree.nodes);
}

/// Whether `after` is `before` once leaf `p` has become an interior node over
/// the two new leaves `left` and `right`, appended to the array.
pub open spec fn divided(before: Seq<Node>, after: Seq<Node>, p: int, left: Node, right: Node) -> bool {
    &&& 0 <= p < before.len()
    &&& before[p].num_tris > 0
    &&& after == before.update(
        p,
        Node {
            bounds_min: before[p].bounds_min,
            first_tri_or_child: before.len() as u32,
            bounds_max: before[p].bounds_max,
            num_tris: 0,
        },
    ).push(left).push(right)
    &&& before.len() + 1 <= u32::MAX
    &&& left.num_tris > 0
    &&& right.num_tris > 0
    &&& left.first_tri_or_child == before[p].first_tri_or_child
    &&& right.first_tri_or_child == left.first_tri_or_child + left.num_tris
    &&& left.num_tris + right.num_tris == before[p].num_tris
}

/// A triangle that a descent from node `n` found before a leaf was divided
/// is still found after.
pub proof fn lemma_under_divided(
    before: Seq<Node>,
    after: Seq<Node>,
    p: int,
    left: Node,
    right: Node,
    n: int,
    t: int,
)
    requires
        divided(before, after, p, left, right),
        under(before, n, t),
    ensures
        under(after, n, t),
    decreases before.len() - n,
{
    let c = before.len() as int;
    assert(after[c] == left);
    assert(after[c + 1] == right);
    if n == p {
        assert(before[p].has(t));
        assert(left.has(t) || right.has(t));
        assert(under(after, c, t) == left.has(t));
        assert(under(after, c + 1, t) == right.has(t));
    } else {
        assert(after[n] == before[n]);
        if before[n].num_tris == 0 {
            let k = before[n].first_tri_or_child as int;
            if under(before, k, t) {
                lemma_under_divided(before, after, p, left, right, k, t);
            } else {
                lemma_under_divided(before, after, p, left, right, k + 1, t);
            }
        }
    }
}

/// A descent that finds a triangle ends in a leaf whose range holds it.
pub proof fn lemma_under_leaf(nodes: Seq<Node>, n: int, t: int) -> (m: int)
    requires
        under(nodes, n, t),
    ensures
        n <= m < nodes.len(),
        nodes[m].has(t),
    decreases nodes.len() - n,
{
    if nodes[n].num_tris > 0 {
        n
    } else {
        let c = nodes[n].first_tri_or_child as int;
        if under(nodes, c, t) {
            lemma_under_leaf(nodes, c, t)
        } else {
            lemma_under_leaf(nodes, c + 1, t)
        }
    }
}

/// A reordering inside the range of one leaf keeps a hierarchy well formed.
pub proof fn lemma_shuffle_wf(before: Tree, after: Tree, p: int, fwd: Seq<int>, bwd: Seq<int>)
    requires
        before.wf(),
        0 <= p < before.nodes.len(),
        before.nodes[p].num_tris > 0,
        shuffled(
            before.tris,
            after.tris,
            before.nodes[p].first_tri_or_child as int,
            before.nodes[p].first_tri_or_child + before.nodes[p].num_tris,
            fwd,
            bwd,
        ),
        after.nodes == before.nodes,
        after.pending == before.pending,
        after.source == before.source,
        after.origin == Seq::new(before.tris.len(), |t: int| before.origin[fwd[t]]),
        after.place == Seq::new(before.tris.len(), |k: int| bwd[before.place[k]]),
    ensures
        after.wf(),
        before.rearranged(
            after,
            before.nodes[p].first_tri_or_child as int,
            before.nodes[p].first_tri_or_child + before.nodes[p].num_tris,
        ),
{
    let lo = before.nodes[p].first_tri_or_child as int;
    let hi = before.nodes[p].first_tri_or_child + before.nodes[p].num_tris;
    assert(before.node_ok(p));
    assert forall|i: int| 0 <= i < after.tris.len() implies {
        &&& 0 <= #[trigger] after.origin[i] < after.tris.len()
        &&& after.place[after.origin[i]] == i
        &&& after.tris[i] == after.source[after.origin[i]]
    } by {
        let j = fwd[i];
        assert(0 <= before.origin[j] < before.tris.len());
        assert(before.place[before.origin[j]] == j);
    }
    assert forall|k: int| 0 <= k < after.tris.len() implies {
        &&& 0 <= #[trigger] after.place[k] < after.tris.len()
        &&& after.origin[after.place[k]] == k
    } by {
        let j = before.place[k];
        assert(0 <= bwd[j] < before.tris.len());
        assert(fwd[bwd[j]] == j);
    }
    assert forall|n: int| 0 <= n < after.nodes.len() implies #[trigger] after.node_ok(n) by {
        assert(before.node_ok(n));
        let node = before.nodes[n];
        if node.num_tris > 0 {
            let a = node.first_tri_or_child as int;
            let b = node.first_tri_or_child + node.num_tris;
            let sel = span(a, b);
            assert forall|t: int| 0 <= t < before.tris.len() && sel.contains(t) implies sel.contains(
                #[trigger] fwd[t],
            ) by {
                if n != p && lo <= t < hi {
                    assert(before.nodes[n].has(t) && before.nodes[p].has(t));
                }
            }
            assert forall|t: int| 0 <= t < before.tris.len() && sel.contains(t) implies sel.contains(
                #[trigger] bwd[t],
            ) by {
                if n != p && lo <= t < hi {
                    assert(before.nodes[n].has(t) && before.nodes[p].has(t));
                }
            }
            lemma_tight_shuffled(node, before.tris, after.tris, lo, hi, fwd, bwd, sel);
        }
    }
    assert forall|t: int| 0 <= t < before.tris.len() implies {
        &&& lo <= t < hi ==> lo <= before.place[#[trigger] after.origin[t]] < hi
        &&& !(lo <= t < hi) ==> after.origin[t] == before.origin[t] && after.tris[t]
            == before.tris[t]
    } by {
        let j = fwd[t];
        assert(before.place[before.origin[j]] == j);
    }
}

/// Dividing a leaf at a point strictly inside its range, into two leaves
/// with tight bounds, keeps a hierarchy well formed.
pub proof fn lemma_divide_wf(before: Tree, after: Tree, left: Node, right: Node)
    requires
        before.wf(),
        before.pending.len() > 0,
        divided(before.nodes, after.nodes, before.pending.last() as int, left, right),
        left.tight(
            before.tris,
            span(left.first_tri_or_child as int, left.first_tri_or_child + left.num_tris),
        ),
        right.tight(
            before.tris,
            span(right.first_tri_or_child as int, right.first_tri_or_child + right.num_tris),
        ),
        after.tris == before.tris,
        after.source == before.source,
        after.origin == before.origin,
        after.place == before.place,
        after.pending == before.pending.drop_last().push((before.nodes.len() + 1) as u32).push(
            before.nodes.len() as u32,
        ),
    ensures
        after.wf(),
{
    let p = before.pending.last() as int;
    let c = before.nodes.len() as int;
    let parent = after.nodes[p];
    let halfway = before.nodes.update(p, parent);
    assert(after.nodes[c] == left);
    assert(after.nodes[c + 1] == right);
    assert(before.node_ok(p));
    lemma_sums_update(before.nodes, p, parent);
    lemma_sums_push(halfway, left);
    lemma_sums_push(halfway.push(left), right);
    assert forall|n: int| 0 <= n < after.nodes.len() implies #[trigger] after.node_ok(n) by {
        if n < c && n != p {
            assert(before.node_ok(n));
            assert(after.nodes[n] == before.nodes[n]);
            if before.nodes[n].num_tris == 0 {
                let k = before.nodes[n].first_tri_or_child as int;
                lemma_hull_same_bounds(
                    before.nodes[n],
                    before.nodes[k],
                    before.nodes[k + 1],
                    after.nodes[n],
                    after.nodes[k],
                    after.nodes[k + 1],
                );
            }
        } else if n == p {
            lemma_hull_of_halves(before.nodes[p], left, right, before.tris);
            lemma_hull_same_bounds(before.nodes[p], left, right, parent, left, right);
        }
    }
    assert forall|m: int, n: int, t: int|
        0 <= m < after.nodes.len() && 0 <= n < after.nodes.len() && #[trigger] after.nodes[m].has(t)
            && #[trigger] after.nodes[n].has(t) implies m == n by {
        if m < c {
            assert(after.nodes[m] == before.nodes[m]);
            assert(before.nodes[m].has(t));
        }
        if n < c {
            assert(after.nodes[n] == before.nodes[n]);
            assert(before.nodes[n].has(t));
        }
        if m >= c || n >= c {
            assert(before.nodes[p].has(t));
        }
    }
    assert forall|t: int| 0 <= t < after.tris.len() implies under(after.nodes, 0, t) by {
        lemma_under_divided(before.nodes, after.nodes, p, left, right, 0, t);
    }
    let kept = before.pending.drop_last();
    assert forall|j: int| 0 <= j < after.pending.len() implies (#[trigger] after.pending[j])
        < after.nodes.len() && after.nodes[after.pending[j] as int].num_tris > 0 by {
        if j < kept.len() {
            assert(after.pending[j] == before.pending[j]);
            assert(before.pending[j] != before.pending[kept.len() as int]);
        }
    }
    assert forall|j: int, k: int| 0 <= j < k < after.pending.len() implies #[trigger] after.pending[j]
        != #[trigger] after.pending[k] by {
        if j < kept.len() {
            assert(after.pending[j] == before.pending[j]);
        }
        if k < kept.len() {
            assert(after.pending[k] == before.pending[k]);
        }
    }
}

} // verus!
