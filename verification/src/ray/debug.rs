//! The walk through every node that a ray enters, for a picture of what
//! the hierarchy costs.

use vstd::prelude::*;
use crate::bvh::{lemma_node_count, Node, Tree, BVH};
use crate::ray::traversal::TraversalError;
use crate::ray::{Ray, FAR_BITS, STACK_DEPTH};
use crate::scalar::Scalar;

verus! {

/// A leaf with more triangles than this is a large leaf.
pub const LARGE_LEAF: u32 = 4;

/// What a walk for the cost picture met at a node.
#[derive(Clone, Copy, Debug, PartialEq, Eq, Structural)]
pub enum Visit {
    /// No node was waiting.
    Idle,
    /// The ray misses the box of the node: nothing below it is visited.
    Missed,
    /// The ray enters a leaf with more than [`LARGE_LEAF`] triangles.
    LargeLeaf,
    /// The ray enters a leaf with at most [`LARGE_LEAF`] triangles.
    SmallLeaf,
    /// The ray enters an interior node: its two children are visited next,
    /// the first child first.
    Fork,
}

/// A walk through every node whose box the ray enters, for a picture of
/// what the hierarchy costs. It takes no notice of distances or triangles.
pub struct DebugTraversal<'a> {
    bvh: &'a BVH,
    stack: Vec<u32>,
}

/// What such a walk is, as mathematics.
pub struct DebugWalk {
    /// The hierarchy that is walked.
    pub tree: Tree,
    /// The nodes that wait; the last one is visited next.
    pub stack: Seq<u32>,
}

impl DebugWalk {
    /// Whether the walk is in order: the hierarchy is well formed, no more
    /// nodes wait than may, and each of them is a node of the hierarchy.
    pub open spec fn wf(self) -> bool {
        &&& self.tree.wf()
        &&& self.stack.len() <= STACK_DEPTH
        &&& forall|j: int| 0 <= j < self.stack.len() ==> (#[trigger] self.stack[j]) < self.tree.nodes.len()
        &&& self.stack.len() > 0 ==> self.tree.tris.len() > 0
    }

    /// The walk at its start: the root waits, unless the hierarchy holds no
    /// triangles.
    pub open spec fn begin(tree: Tree) -> DebugWalk {
        DebugWalk {
            tree,
            stack: if tree.tris.len() > 0 {
                seq![0u32]
            } else {
                Seq::empty()
            },
        }
    }

    /// The node that is visited next.
    pub open spec fn front(self) -> Node {
        self.tree.nodes[self.stack.last() as int]
    }

    /// Whether a ray that enters the box of the next node at `entry` would
    /// make one node too many wait.
    pub open spec fn overflows(self, entry: Scalar) -> bool {
        &&& self.stack.len() == STACK_DEPTH
        &&& entry.lt(Scalar { bits: FAR_BITS })
        &&& self.front().num_tris == 0
    }

    /// What the walk meets at the next node, where the ray enters its box
    /// at `entry`, the far distance standing for a miss.
    pub open spec fn meets(self, entry: Scalar) -> Visit {
        if self.stack.len() == 0 {
            Visit::Idle
        } else if !entry.lt(Scalar { bits: FAR_BITS }) {
            Visit::Missed
        } else if self.front().num_tris > LARGE_LEAF {
            Visit::LargeLeaf
        } else if self.front().num_tris > 0 {
            Visit::SmallLeaf
        } else {
            Visit::Fork
        }
    }

    /// The walk after the visit: the node no longer waits, and at a fork
    /// its two children wait in its place, the first child on top. A walk
    /// that would overflow stays as it is.
    pub open spec fn visited(self, entry: Scalar) -> DebugWalk {
        if self.stack.len() == 0 || self.overflows(entry) {
            self
        } else if self.meets(entry) == Visit::Fork {
            let c = self.front().first_tri_or_child;
            DebugWalk { stack: self.stack.drop_last().push((c + 1) as u32).push(c), ..self }
        } else {
            DebugWalk { stack: self.stack.drop_last(), ..self }
        }
    }
}

impl<'a> View for DebugTraversal<'a> {
    type V = DebugWalk;

    closed spec fn view(&self) -> DebugWalk {
        DebugWalk { tree: self.bvh@, stack: self.stack@ }
    }
}

impl<'a> DebugTraversal<'a> {
    /// Starts a walk at the root of `bvh`.
    pub fn start(bvh: &'a BVH) -> (r: DebugTraversal<'a>)
        requires
            bvh@.wf(),
        ensures
            r@ == DebugWalk::begin(bvh@),
            r@.wf(),
    {
        let mut stack: Vec<u32> = Vec::new();
        if bvh.triangles().len() > 0 {
            stack.push(0);
        }
        let r = DebugTraversal { bvh, stack };
        assert(r@.stack =~= DebugWalk::begin(bvh@).stack);
        r
    }

    /// The node whose box has to be tested next, if any is left.
    pub fn probe(&self) -> (r: Option<usize>)
        requires
            self@.wf(),
        ensures
            r.is_none() <==> self@.stack.len() == 0,
            r.is_some() ==> r.unwrap() == self@.stack.last() && r.unwrap() < self@.tree.nodes.len(),
    {
        let n: usize = self.stack.len();
        if n == 0 {
            None
        } else {
            Some(self.stack[n - 1] as usize)
        }
    }

    /// Takes the distance at which the ray enters the box of the node that
    /// the walk asked for, and says what the walk met there.
    pub fn debug_bvh(&mut self, entry: Scalar) -> (r: Result<Visit, TraversalError>)
        requires
            old(self)@.wf(),
        ensures
            r.is_err() <==> old(self)@.overflows(entry),
            r.is_ok() ==> r.unwrap() == old(self)@.meets(entry),
            final(self)@ == old(self)@.visited(entry),
            final(self)@.wf(),
    {
        let n: usize = self.stack.len();
        if n == 0 {
            return Ok(Visit::Idle);
        }
        let index: u32 = self.stack[n - 1];
        let node: Node = self.bvh.node(index as usize);
        let entered: bool = entry.less_than(Scalar { bits: FAR_BITS });
        if entered && node.num_tris == 0 && n >= STACK_DEPTH {
            return Err(TraversalError::StackOverflow);
        }
        self.stack.pop();
        proof {
            assert(self@.stack =~= old(self)@.stack.drop_last());
            assert forall|j: int| 0 <= j < self@.stack.len() implies (#[trigger] self@.stack[j])
                < self@.tree.nodes.len() by {
                assert(self@.stack[j] == old(self)@.stack[j]);
            }
        }
        if !entered {
            Ok(Visit::Missed)
        } else if node.num_tris > LARGE_LEAF {
            Ok(Visit::LargeLeaf)
        } else if node.num_tris > 0 {
            Ok(Visit::SmallLeaf)
        } else {
            proof {
                assert(self@.tree.node_ok(index as int));
                lemma_node_count(self@.tree);
            }
            let c: u32 = node.first_tri_or_child;
            let ghost kept = self@.stack;
            self.stack.push(c + 1);
            self.stack.push(c);
            proof {
                assert forall|j: int| 0 <= j < self@.stack.len() implies (#[trigger] self@.stack[j])
                    < self@.tree.nodes.len() by {
                    if j < kept.len() {
                        assert(self@.stack[j] == kept[j]);
                    }
                }
            }
            Ok(Visit::Fork)
        }
    }
}

/// The number of nodes at and below node `n`.
pub open spec fn bulk(nodes: Seq<Node>, n: int) -> nat
    decreases nodes.len() - n,
{
    if 0 <= n < nodes.len() {
        let c = nodes[n].first_tri_or_child as int;
        if nodes[n].num_tris == 0 && n < c && c + 1 < nodes.len() {
            1 + bulk(nodes, c) + bulk(nodes, c + 1)
        } else {
            1
        }
    } else {
        0
    }
}

/// The number of nodes at and below the nodes that wait.
pub open spec fn waiting_bulk(nodes: Seq<Node>, stack: Seq<u32>) -> nat
    decreases stack.len(),
{
    if stack.len() == 0 {
        0
    } else {
        waiting_bulk(nodes, stack.drop_last()) + bulk(nodes, stack.last() as int)
    }
}

/// Every visit brings a walk nearer to its end: it leaves fewer nodes at
/// and below those that wait.
pub proof fn law_walk_progress(w: DebugWalk, entry: Scalar)
    requires
        w.wf(),
        w.stack.len() > 0,
        !w.overflows(entry),
    ensures
        waiting_bulk(w.tree.nodes, w.visited(entry).stack) < waiting_bulk(w.tree.nodes, w.stack),
{
    let nodes = w.tree.nodes;
    let c = w.front().first_tri_or_child;
    let kept = w.stack.drop_last();
    assert(w.tree.node_ok(w.stack.last() as int));
    lemma_node_count(w.tree);
    let last = w.stack.last() as int;
    assert(bulk(nodes, last) >= 1);
    assert(waiting_bulk(nodes, w.stack) == waiting_bulk(nodes, kept) + bulk(nodes, last));
    if w.meets(entry) == Visit::Fork {
        let one = kept.push((c + 1) as u32);
        let two = one.push(c);
        assert(two.drop_last() =~= one);
        assert(one.drop_last() =~= kept);
        assert(bulk(nodes, last) == 1 + bulk(nodes, c as int) + bulk(nodes, c + 1));
        assert(waiting_bulk(nodes, one) == waiting_bulk(nodes, kept) + bulk(nodes, c + 1));
        assert(waiting_bulk(nodes, two) == waiting_bulk(nodes, one) + bulk(nodes, c as int));
        assert(w.visited(entry).stack == two);
    } else {
        assert(w.visited(entry).stack == kept);
    }
}

/// What a walk that starts at node `n` meets, in order, where `entry` gives
/// the distance at which the ray enters each node: the node itself, and
/// below a fork that the ray enters, all that a walk from its first child
/// meets and then all that a walk from its second child meets.
pub open spec fn tour(nodes: Seq<Node>, n: int, entry: spec_fn(int) -> Scalar) -> Seq<Visit>
    decreases nodes.len() - n,
{
    if 0 <= n < nodes.len() {
        let c = nodes[n].first_tri_or_child as int;
        if !entry(n).lt(Scalar { bits: FAR_BITS }) {
            seq![Visit::Missed]
        } else if nodes[n].num_tris > LARGE_LEAF {
            seq![Visit::LargeLeaf]
        } else if nodes[n].num_tris > 0 {
            seq![Visit::SmallLeaf]
        } else if n < c && c + 1 < nodes.len() {
            seq![Visit::Fork] + tour(nodes, c, entry) + tour(nodes, c + 1, entry)
        } else {
            seq![Visit::Fork]
        }
    } else {
        Seq::empty()
    }
}

/// What walks from the nodes that wait meet, the node that waited last
/// first.
pub open spec fn waiting_tour(nodes: Seq<Node>, stack: Seq<u32>, entry: spec_fn(int) -> Scalar) -> Seq<
    Visit,
>
    decreases stack.len(),
{
    if stack.len() == 0 {
        Seq::empty()
    } else {
        tour(nodes, stack.last() as int, entry) + waiting_tour(nodes, stack.drop_last(), entry)
    }
}

/// A walk with waiting nodes does what a walk that calls itself for each
/// child does: each visit meets what comes first on the tour that is left,
/// and leaves the rest of that tour.
pub proof fn law_walk_follows_tour(w: DebugWalk, entry: spec_fn(int) -> Scalar)
    requires
        w.wf(),
        w.stack.len() > 0,
        !w.overflows(entry(w.stack.last() as int)),
    ensures
        waiting_tour(w.tree.nodes, w.stack, entry) == seq![w.meets(entry(w.stack.last() as int))]
            + waiting_tour(w.tree.nodes, w.visited(entry(w.stack.last() as int)).stack, entry),
{
    let nodes = w.tree.nodes;
    let top = w.stack.last() as int;
    let c = w.front().first_tri_or_child;
    let kept = w.stack.drop_last();
    let met = w.meets(entry(top));
    assert(w.tree.node_ok(top));
    lemma_node_count(w.tree);
    if met == Visit::Fork {
        let one = kept.push((c + 1) as u32);
        let two = one.push(c);
        assert(two.drop_last() =~= one);
        assert(one.drop_last() =~= kept);
        assert(w.visited(entry(top)).stack == two);
        assert(two.last() == c && one.last() == c + 1);
        assert(waiting_tour(nodes, two, entry) == tour(nodes, c as int, entry) + waiting_tour(
            nodes,
            one,
            entry,
        ));
        assert(waiting_tour(nodes, one, entry) == tour(nodes, c + 1, entry) + waiting_tour(
            nodes,
            kept,
            entry,
        ));
        assert(waiting_tour(nodes, two, entry) =~= tour(nodes, c as int, entry) + (tour(
            nodes,
            c + 1,
            entry,
        ) + waiting_tour(nodes, kept, entry)));
        assert(tour(nodes, top, entry) =~= seq![Visit::Fork] + tour(nodes, c as int, entry) + tour(
            nodes,
            c + 1,
            entry,
        ));
        assert(waiting_tour(nodes, w.stack, entry) =~= seq![met] + waiting_tour(nodes, two, entry));
    } else {
        assert(w.visited(entry(top)).stack == kept);
        assert(tour(nodes, top, entry) =~= seq![met]);
    }
}

/// The tour that is left when a walk starts is the tour from the root, or
/// nothing where the hierarchy holds no triangles.
pub proof fn law_walk_begins_at_root(tree: Tree, entry: spec_fn(int) -> Scalar)
    ensures
        waiting_tour(tree.nodes, DebugWalk::begin(tree).stack, entry) == if tree.tris.len() > 0 {
            tour(tree.nodes, 0, entry)
        } else {
            Seq::<Visit>::empty()
        },
{
    let start = DebugWalk::begin(tree).stack;
    if tree.tris.len() > 0 {
        assert(start =~= seq![0u32]);
        assert(start.last() == 0);
        assert(start.drop_last() =~= Seq::<u32>::empty());
        assert(waiting_tour(tree.nodes, start.drop_last(), entry) =~= Seq::<Visit>::empty());
        assert(waiting_tour(tree.nodes, start, entry) =~= tour(tree.nodes, 0, entry));
    }
}

/// The most nodes that wait at one time during a walk that starts at node
/// `n`, that node counted: one where the ray misses the node or the node is
/// a leaf; below a fork that the ray enters, the second child waits while
/// the walk from the first child goes on, and then the walk from the
/// second child goes on alone.
pub open spec fn peak(nodes: Seq<Node>, n: int, entry: spec_fn(int) -> Scalar) -> nat
    decreases nodes.len() - n,
{
    if 0 <= n < nodes.len() {
        let c = nodes[n].first_tri_or_child as int;
        if entry(n).lt(Scalar { bits: FAR_BITS }) && nodes[n].num_tris == 0 && n < c && c + 1
            < nodes.len() {
            let first = peak(nodes, c, entry) + 1;
            let second = peak(nodes, c + 1, entry);
            if first >= second {
                first
            } else {
                second
            }
        } else {
            1
        }
    } else {
        1
    }
}

/// The most nodes that wait at one time during the walks from the nodes
/// that wait now: while the walk from one of them goes on, those below it
/// wait as well.
pub open spec fn waiting_peak(nodes: Seq<Node>, stack: Seq<u32>, entry: spec_fn(int) -> Scalar) -> nat
    decreases stack.len(),
{
    if stack.len() == 0 {
        0
    } else {
        let below = waiting_peak(nodes, stack.drop_last(), entry);
        let top = (stack.len() - 1 + peak(nodes, stack.last() as int, entry)) as nat;
        if below >= top {
            below
        } else {
            top
        }
    }
}

/// A walk from any node makes at least that node wait.
pub proof fn lemma_peak_positive(nodes: Seq<Node>, n: int, entry: spec_fn(int) -> Scalar)
    ensures
        peak(nodes, n, entry) >= 1,
    decreases nodes.len() - n,
{
    if 0 <= n < nodes.len() {
        let c = nodes[n].first_tri_or_child as int;
        if entry(n).lt(Scalar { bits: FAR_BITS }) && nodes[n].num_tris == 0 && n < c && c + 1
            < nodes.len() {
            lemma_peak_positive(nodes, c, entry);
        }
    }
}

/// A walk stops for want of room exactly where the walks that are left
/// would make more than [`STACK_DEPTH`] nodes wait; and a visit that the
/// walk takes leaves it as true or as false as it was that the walks that
/// are left would do so.
pub proof fn law_walk_keeps_peak(w: DebugWalk, entry: spec_fn(int) -> Scalar)
    requires
        w.wf(),
        w.stack.len() > 0,
    ensures
        w.overflows(entry(w.stack.last() as int)) ==> waiting_peak(w.tree.nodes, w.stack, entry)
            > STACK_DEPTH,
        !w.overflows(entry(w.stack.last() as int)) ==> (waiting_peak(
            w.tree.nodes,
            w.visited(entry(w.stack.last() as int)).stack,
            entry,
        ) > STACK_DEPTH) == (waiting_peak(w.tree.nodes, w.stack, entry) > STACK_DEPTH),
{
    let nodes = w.tree.nodes;
    let top = w.stack.last() as int;
    let c = w.front().first_tri_or_child;
    let kept = w.stack.drop_last();
    let met = w.meets(entry(top));
    assert(w.tree.node_ok(top));
    lemma_node_count(w.tree);
    lemma_peak_positive(nodes, c as int, entry);
    lemma_peak_positive(nodes, c + 1, entry);
    if entry(top).lt(Scalar { bits: FAR_BITS }) && w.front().num_tris == 0 {
        let one = kept.push((c + 1) as u32);
        let two = one.push(c);
        assert(two.drop_last() =~= one);
        assert(one.drop_last() =~= kept);
        assert(two.last() == c && one.last() == c + 1);
        assert(peak(nodes, top, entry) == if peak(nodes, c as int, entry) + 1 >= peak(
            nodes,
            c + 1,
            entry,
        ) {
            peak(nodes, c as int, entry) + 1
        } else {
            peak(nodes, c + 1, entry)
        });
        if !w.overflows(entry(top)) {
            assert(met == Visit::Fork);
            assert(w.visited(entry(top)).stack == two);
            let len = w.stack.len() as int;
            let base = waiting_peak(nodes, kept, entry);
            let p1 = peak(nodes, c as int, entry);
            let p2 = peak(nodes, c + 1, entry);
            assert(one.len() == len && two.len() == len + 1);
            assert(waiting_peak(nodes, one, entry) == if base >= len - 1 + p2 {
                base as int
            } else {
                len - 1 + p2
            });
            assert(waiting_peak(nodes, two, entry) == if waiting_peak(nodes, one, entry) >= len + p1 {
                waiting_peak(nodes, one, entry) as int
            } else {
                len + p1
            });
            assert(waiting_peak(nodes, w.stack, entry) == if base >= len - 1 + peak(nodes, top, entry) {
                base as int
            } else {
                len - 1 + peak(nodes, top, entry)
            });
            assert(waiting_peak(nodes, two, entry) == waiting_peak(nodes, w.stack, entry));
        }
    } else {
        assert(peak(nodes, top, entry) == 1);
        assert(w.visited(entry(top)).stack == kept);
    }
}

/// The walks that are left when a walk starts are the walk from the root.
pub proof fn law_walk_begins_with_peak(tree: Tree, entry: spec_fn(int) -> Scalar)
    requires
        tree.wf(),
    ensures
        (waiting_peak(tree.nodes, DebugWalk::begin(tree).stack, entry) > STACK_DEPTH) == (peak(
            tree.nodes,
            0,
            entry,
        ) > STACK_DEPTH),
{
    let start = DebugWalk::begin(tree).stack;
    assert(tree.node_ok(0));
    if tree.tris.len() > 0 {
        assert(start =~= seq![0u32]);
        assert(start.last() == 0);
        assert(start.drop_last() =~= Seq::<u32>::empty());
        assert(waiting_peak(tree.nodes, start.drop_last(), entry) == 0);
        assert(waiting_peak(tree.nodes, start, entry) == peak(tree.nodes, 0, entry));
    } else {
        assert(peak(tree.nodes, 0, entry) == 1);
    }
}

impl Ray {
    /// What a walk for the cost picture meets, in order, for a ray whose
    /// box tests are all known: `entries` holds the distance at which the
    /// ray enters the box of each node of `bvh`, the far distance standing
    /// for a miss.
    ///
    /// The walk fails exactly where it would make more than
    /// [`STACK_DEPTH`] nodes wait at one time ([`peak`]). Else it meets the
    /// tour from the root ([`tour`]), or nothing where the hierarchy holds
    /// no triangles.
    pub fn debug_bvh(bvh: &BVH, entries: &Vec<Scalar>) -> (r: Result<Vec<Visit>, TraversalError>)
        requires
            bvh@.wf(),
            entries.len() == bvh@.nodes.len(),
        ensures
            r.is_err() <==> peak(bvh@.nodes, 0, |n: int| entries[n]) > STACK_DEPTH,
            r.is_ok() ==> r.unwrap()@ == if bvh@.tris.len() > 0 {
                tour(bvh@.nodes, 0, |n: int| entries[n])
            } else {
                Seq::<Visit>::empty()
            },
    {
        let ghost entry = |n: int| entries[n];
        let mut walk = DebugTraversal::start(bvh);
        let mut met: Vec<Visit> = Vec::new();
        let ghost whole = waiting_tour(bvh@.nodes, walk@.stack, entry);
        proof {
            law_walk_begins_at_root(bvh@, entry);
            law_walk_begins_with_peak(bvh@, entry);
        }
        loop
            invariant
                walk@.wf(),
                walk@.tree == bvh@,
                entries.len() == bvh@.nodes.len(),
                entry == (|n: int| entries[n]),
                met@ + waiting_tour(bvh@.nodes, walk@.stack, entry) == whole,
                whole == if bvh@.tris.len() > 0 {
                    tour(bvh@.nodes, 0, entry)
                } else {
                    Seq::<Visit>::empty()
                },
                (waiting_peak(bvh@.nodes, walk@.stack, entry) > STACK_DEPTH) == (peak(
                    bvh@.nodes,
                    0,
                    entry,
                ) > STACK_DEPTH),
            decreases waiting_bulk(bvh@.nodes, walk@.stack),
        {
            let ghost before = walk@;
            match walk.probe() {
                None => {
                    proof {
                        assert(met@ + Seq::<Visit>::empty() =~= met@);
                        assert(waiting_peak(bvh@.nodes, before.stack, entry) == 0);
                    }
                    return Ok(met);
                },
                Some(index) => {
                    let entered: Scalar = entries[index];
                    proof {
                        assert(entered == entry(before.stack.last() as int));
                        law_walk_keeps_peak(before, entry);
                    }
                    match walk.debug_bvh(entered) {
                        Err(e) => {
                            return Err(e);
                        },
                        Ok(visit) => {
                            proof {
                                law_walk_progress(before, entered);
                                law_walk_follows_tour(before, entry);
                                assert(met@.push(visit) + waiting_tour(bvh@.nodes, walk@.stack, entry)
                                    =~= met@ + (seq![visit] + waiting_tour(
                                    bvh@.nodes,
                                    walk@.stack,
                                    entry,
                                )));
                            }
                            met.push(visit);
                        },
                    }
                },
            }
        }
    }
}

} // verus!
