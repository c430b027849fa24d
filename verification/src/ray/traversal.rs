//! The nearest-hit search through the hierarchy, and why it finds what a
//! scan of all triangles finds.

use vstd::prelude::*;
use crate::bvh::{lemma_node_count, under, Node, Tree, BVH};
use crate::ray::{no_hit, HitInfo, Ray, FAR_BITS, STACK_DEPTH};
use crate::scalar::Scalar;

verus! {

/// What the search needs to know next.
#[derive(Clone, Copy, Debug, PartialEq, Eq, Structural)]
pub enum Probe {
    /// The intersection of the ray with the triangle at this index.
    Triangle(usize),
    /// The distances at which the ray enters the boxes of these two nodes.
    Children(usize, usize),
    /// Nothing: the search is over.
    Done,
}

/// Why a search cannot go on.
#[derive(Clone, Copy, Debug, PartialEq, Eq, Structural)]
pub enum TraversalError {
    /// More than [`STACK_DEPTH`] nodes would have to wait.
    StackOverflow,
}

/// A nearest-hit search through a hierarchy, between two questions.
///
/// The search does no geometry. It says what has to be intersected next
/// ([`Traversal::probe`]), is told the outcome ([`Traversal::offer`],
/// [`Traversal::descend`]), and keeps the nearest hit and the nodes that
/// still wait.
pub struct Traversal<'a> {
    bvh: &'a BVH,
    stack: Vec<u32>,
    node: u32,
    tri: u32,
    running: bool,
    best: HitInfo,
}

/// What a search is, as mathematics.
pub struct Walk {
    /// The hierarchy that is searched.
    pub tree: Tree,
    /// The nodes that wait; the last one is visited next.
    pub stack: Seq<u32>,
    /// The node that is being visited.
    pub node: u32,
    /// At a leaf, how many of its triangles have been tested.
    pub tri: u32,
    /// Whether anything is left to visit.
    pub running: bool,
    /// The nearest hit so far.
    pub best: HitInfo,
}

impl Walk {
    /// The node that is being visited.
    pub open spec fn here(self) -> Node {
        self.tree.nodes[self.node as int]
    }

    /// Whether the search is at a leaf and asks for a triangle.
    pub open spec fn at_leaf(self) -> bool {
        self.running && self.here().num_tris > 0
    }

    /// Whether the search is at an interior node and asks for its children.
    pub open spec fn at_fork(self) -> bool {
        self.running && self.here().num_tris == 0
    }

    /// Whether the search is in order: the hierarchy is well formed, no more
    /// nodes wait than may, each of them is a node of the hierarchy, and a
    /// search that runs is at a node, with a triangle of it left to test if
    /// that is a leaf.
    pub open spec fn wf(self) -> bool {
        &&& self.tree.wf()
        &&& self.stack.len() <= STACK_DEPTH
        &&& forall|j: int| 0 <= j < self.stack.len() ==> (#[trigger] self.stack[j]) < self.tree.nodes.len()
        &&& self.running ==> {
            &&& self.tree.tris.len() > 0
            &&& self.node < self.tree.nodes.len()
            &&& self.here().num_tris > 0 ==> self.tri < self.here().num_tris
        }
    }

    /// The search at its start: at the root, nothing waiting, nothing hit.
    /// Over a hierarchy without triangles it is over at once.
    pub open spec fn begin(tree: Tree) -> Walk {
        Walk {
            tree,
            stack: Seq::empty(),
            node: 0,
            tri: 0,
            running: tree.tris.len() > 0,
            best: no_hit(),
        }
    }

    /// What the search asks next.
    pub open spec fn asks(self) -> Probe {
        if !self.running {
            Probe::Done
        } else if self.here().num_tris > 0 {
            Probe::Triangle((self.here().first_tri_or_child + self.tri) as usize)
        } else {
            Probe::Children(
                self.here().first_tri_or_child as usize,
                (self.here().first_tri_or_child + 1) as usize,
            )
        }
    }

    /// The search after it has turned to the node that waited last, or has
    /// ended because none waited.
    pub open spec fn popped(self) -> Walk {
        if self.stack.len() == 0 {
            Walk { running: false, ..self }
        } else {
            Walk { node: self.stack.last(), tri: 0, stack: self.stack.drop_last(), ..self }
        }
    }

    /// The search after the triangle it asked for gave `hit`: the hit is
    /// the best if it beats the best so far, and the search goes on to the
    /// next triangle of the leaf, or leaves the leaf after the last. A search
    /// that is not at a leaf takes no hit.
    pub open spec fn offered(self, hit: HitInfo) -> Walk {
        if !self.at_leaf() {
            self
        } else {
            let best = if hit.beats(self.best) {
                hit
            } else {
                self.best
            };
            if self.tri + 1 < self.here().num_tris {
                Walk { best, tri: (self.tri + 1) as u32, ..self }
            } else {
                (Walk { best, ..self }).popped()
            }
        }
    }

    /// Whether the box entered at `entry` is worth a visit: the ray enters
    /// it strictly before the best hit so far.
    pub open spec fn worth(self, entry: Scalar) -> bool {
        entry.lt(self.best.distance)
    }

    /// Whether the answer `left`, `right` at a fork would make one node too
    /// many wait.
    pub open spec fn overflows(self, left: Scalar, right: Scalar) -> bool {
        self.at_fork() && self.worth(left) && self.worth(right) && self.stack.len() == STACK_DEPTH
    }

    /// The search after the two children it asked for are entered at `left`
    /// and `right`: it visits the child that is entered first, if that is
    /// worth a visit, and lets the other wait, if that is worth one; with one
    /// child worth a visit it visits that; with none it turns to the node
    /// that waited last. A search that is not at a fork, or that would
    /// overflow, stays as it is.
    pub open spec fn descended(self, left: Scalar, right: Scalar) -> Walk {
        let c = self.here().first_tri_or_child;
        if !self.at_fork() || self.overflows(left, right) {
            self
        } else if self.worth(left) && self.worth(right) {
            if right.lt(left) {
                Walk { node: (c + 1) as u32, tri: 0, stack: self.stack.push(c), ..self }
            } else {
                Walk { node: c, tri: 0, stack: self.stack.push((c + 1) as u32), ..self }
            }
        } else if self.worth(left) {
            Walk { node: c, tri: 0, ..self }
        } else if self.worth(right) {
            Walk { node: (c + 1) as u32, tri: 0, ..self }
        } else {
            self.popped()
        }
    }

    /// Whether triangle `t` is still going to be tested, unless its box is
    /// found not worth a visit: it is a triangle of the leaf being visited
    /// that has not had its turn, or lies below the fork being visited, or
    /// below a node that waits.
    pub open spec fn awaits(self, t: int) -> bool {
        &&& self.running
        &&& {
            ||| self.here().num_tris > 0 && self.here().first_tri_or_child + self.tri <= t
                < self.here().first_tri_or_child + self.here().num_tris
            ||| self.here().num_tris == 0 && under(self.tree.nodes, self.node as int, t)
            ||| exists|j: int|
                0 <= j < self.stack.len() && under(self.tree.nodes, #[trigger] self.stack[j] as int, t)
        }
    }

    /// Whether the search is on course, where `hit` gives the intersection
    /// with each triangle: the best record is that of no hit or of some
    /// triangle, and every triangle whose hit would beat it is still going
    /// to be tested.
    pub open spec fn sound(self, hit: spec_fn(int) -> HitInfo) -> bool {
        &&& self.wf()
        &&& self.best.settled()
        &&& self.best.has_hit ==> exists|t: int|
            0 <= t < self.tree.tris.len() && #[trigger] hit(t) == self.best
        &&& forall|t: int|
            0 <= t < self.tree.tris.len() && (#[trigger] hit(t)).beats(self.best) ==> self.awaits(t)
    }

    /// The most questions that the search can still ask.
    pub open spec fn effort_left(self) -> nat {
        if !self.running {
            0
        } else if self.here().num_tris > 0 {
            (self.here().num_tris - self.tri) as nat + waiting_effort(self.tree.nodes, self.stack)
        } else {
            effort(self.tree.nodes, self.node as int) + waiting_effort(self.tree.nodes, self.stack)
        }
    }
}

impl<'a> View for Traversal<'a> {
    type V = Walk;

    closed spec fn view(&self) -> Walk {
        Walk {
            tree: self.bvh@,
            stack: self.stack@,
            node: self.node,
            tri: self.tri,
            running: self.running,
            best: self.best,
        }
    }
}

impl<'a> Traversal<'a> {
    /// Starts a search at the root of `bvh`.
    pub fn start(bvh: &'a BVH) -> (r: Traversal<'a>)
        requires
            bvh@.wf(),
        ensures
            r@ == Walk::begin(bvh@),
            r@.wf(),
    {
        let running: bool = bvh.triangles().len() > 0;
        proof {
            if running {
                assert(bvh@.node_ok(0));
            }
        }
        Traversal { bvh, stack: Vec::new(), node: 0, tri: 0, running, best: HitInfo::default() }
    }

    /// What has to be intersected next.
    pub fn probe(&self) -> (r: Probe)
        requires
            self@.wf(),
        ensures
            r == self@.asks(),
            r matches Probe::Triangle(t) ==> t < self@.tree.tris.len() && self@.here().has(t as int),
            r matches Probe::Children(a, b) ==> a < b < self@.tree.nodes.len() && self@.node < a,
    {
        if !self.running {
            return Probe::Done;
        }
        let node: Node = self.bvh.node(self.node as usize);
        proof {
            assert(self@.tree.node_ok(self.node as int));
            lemma_node_count(self@.tree);
        }
        if node.num_tris > 0 {
            Probe::Triangle(node.first_tri_or_child as usize + self.tri as usize)
        } else {
            Probe::Children(node.first_tri_or_child as usize, node.first_tri_or_child as usize + 1)
        }
    }

    /// The nearest hit so far; once the search is over, the nearest hit.
    pub fn best(&self) -> (r: HitInfo)
        ensures
            r == self@.best,
    {
        self.best
    }

    fn pop(&mut self)
        requires
            old(self)@.wf(),
        ensures
            final(self)@ == old(self)@.popped(),
            final(self)@.wf(),
    {
        match self.stack.pop() {
            None => {
                self.running = false;
            },
            Some(next) => {
                proof {
                    assert(next == old(self)@.stack[old(self)@.stack.len() - 1]);
                    assert(self@.tree.node_ok(next as int));
                }
                self.node = next;
                self.tri = 0;
            },
        }
        proof {
            assert(self@.stack =~= old(self)@.popped().stack);
            assert forall|j: int| 0 <= j < self@.stack.len() implies (#[trigger] self@.stack[j])
                < self@.tree.nodes.len() by {
                assert(self@.stack[j] == old(self)@.stack[j]);
            }
        }
    }

    /// Takes the intersection with the triangle that the search asked for.
    pub fn offer(&mut self, hit: HitInfo)
        requires
            old(self)@.wf(),
        ensures
            final(self)@ == old(self)@.offered(hit),
            final(self)@.wf(),
    {
        if !self.running {
            return ;
        }
        let node: Node = self.bvh.node(self.node as usize);
        if node.num_tris == 0 {
            return ;
        }
        if hit.has_hit && hit.distance.less_than(self.best.distance) {
            self.best = hit;
        }
        if self.tri + 1 < node.num_tris {
            self.tri = self.tri + 1;
        } else {
            self.pop();
        }
    }

    /// Takes the distances at which the ray enters the two children that
    /// the search asked for, the far distance standing for a miss.
    pub fn descend(&mut self, left: Scalar, right: Scalar) -> (r: Result<(), TraversalError>)
        requires
            old(self)@.wf(),
        ensures
            r.is_err() <==> old(self)@.overflows(left, right),
            final(self)@ == old(self)@.descended(left, right),
            final(self)@.wf(),
    {
        if !self.running {
            return Ok(());
        }
        let node: Node = self.bvh.node(self.node as usize);
        if node.num_tris > 0 {
            return Ok(());
        }
        proof {
            assert(self@.tree.node_ok(self.node as int));
            lemma_node_count(self@.tree);
        }
        let c: u32 = node.first_tri_or_child;
        proof {
            assert(self@.tree.node_ok(c as int));
            assert(self@.tree.node_ok(c + 1));
        }
        let left_worth: bool = left.less_than(self.best.distance);
        let right_worth: bool = right.less_than(self.best.distance);
        if left_worth && right_worth {
            if self.stack.len() >= STACK_DEPTH {
                return Err(TraversalError::StackOverflow);
            }
            if right.less_than(left) {
                self.node = c + 1;
                self.stack.push(c);
            } else {
                self.node = c;
                self.stack.push(c + 1);
            }
            self.tri = 0;
        } else if left_worth {
            self.node = c;
            self.tri = 0;
        } else if right_worth {
            self.node = c + 1;
            self.tri = 0;
        } else {
            self.pop();
        }
        Ok(())
    }
}

/// The best record after testing the triangles `0 .. n` one after the other,
/// where `hit` gives the intersection with each: the outcome of a search
/// without a hierarchy.
pub open spec fn scan(hit: spec_fn(int) -> HitInfo, n: int) -> HitInfo
    decreases n,
{
    if n <= 0 {
        no_hit()
    } else if hit(n - 1).beats(scan(hit, n - 1)) {
        hit(n - 1)
    } else {
        scan(hit, n - 1)
    }
}

/// Whether the box tests never hide a hit: a ray that hits a triangle
/// nearer than the far distance enters the box of every node above that
/// triangle, the root apart, no later than it hits. `hit` gives the
/// intersection with each triangle and `entry` the distance at which the
/// ray enters each node. The box of the root is never asked for.
pub open spec fn cautious(tree: Tree, hit: spec_fn(int) -> HitInfo, entry: spec_fn(int) -> Scalar) -> bool {
    forall|n: int, t: int|
        0 < n < tree.nodes.len() && #[trigger] under(tree.nodes, n, t) && hit(t).has_hit && hit(
            t,
        ).distance.lt(Scalar { bits: FAR_BITS }) ==> entry(n).le(hit(t).distance)
}

/// A search starts on course.
pub proof fn law_search_begins(tree: Tree, hit: spec_fn(int) -> HitInfo)
    requires
        tree.wf(),
    ensures
        Walk::begin(tree).sound(hit),
{
    let w = Walk::begin(tree);
    if tree.tris.len() > 0 {
        assert(tree.node_ok(0));
    }
    assert forall|t: int| 0 <= t < tree.tris.len() && (#[trigger] hit(t)).beats(w.best) implies w.awaits(
        t,
    ) by {
        assert(under(tree.nodes, 0, t));
    }
}

/// A search stays on course when it is told the true intersection with the
/// triangle that it asked for.
pub proof fn law_offer_keeps_course(w: Walk, hit: spec_fn(int) -> HitInfo, t0: int)
    requires
        w.sound(hit),
        w.asks() == Probe::Triangle(t0 as usize),
        0 <= t0 < w.tree.tris.len(),
    ensures
        w.offered(hit(t0)).sound(hit),
{
    let after = w.offered(hit(t0));
    let node = w.here();
    assert(w.tree.node_ok(w.node as int));
    assert(t0 == node.first_tri_or_child + w.tri);
    if w.stack.len() > 0 {
        assert(w.tree.node_ok(w.stack.last() as int));
    }
    assert forall|j: int| 0 <= j < after.stack.len() implies (#[trigger] after.stack[j])
        < after.tree.nodes.len() by {
        assert(after.stack[j] == w.stack[j]);
    }
    assert(after.wf());
    assert(after.best.settled()) by {
        if hit(t0).beats(w.best) {
            assert(hit(t0).distance.lt(w.best.distance));
        }
    }
    assert forall|t: int| 0 <= t < w.tree.tris.len() && (#[trigger] hit(t)).beats(after.best) implies after.awaits(
        t,
    ) by {
        assert(hit(t).beats(w.best));
        assert(w.awaits(t));
        assert(t != t0);
        if w.tri + 1 < node.num_tris {
            if !(node.first_tri_or_child + w.tri <= t < node.first_tri_or_child + node.num_tris) {
                let j = choose|j: int|
                    0 <= j < w.stack.len() && under(w.tree.nodes, #[trigger] w.stack[j] as int, t);
                assert(after.stack[j] == w.stack[j]);
            }
        } else {
            assert(!(node.first_tri_or_child + w.tri <= t < node.first_tri_or_child + node.num_tris));
            let j = choose|j: int|
                0 <= j < w.stack.len() && under(w.tree.nodes, #[trigger] w.stack[j] as int, t);
            if j == w.stack.len() - 1 {
                assert(under(after.tree.nodes, after.node as int, t));
            } else {
                assert(after.stack[j] == w.stack[j]);
            }
        }
    }
}

/// A search stays on course when it is told the true distances at which the
/// ray enters the two children that it asked for, provided the box tests
/// never hide a hit and no node too many has to wait.
pub proof fn law_descend_keeps_course(
    w: Walk,
    hit: spec_fn(int) -> HitInfo,
    entry: spec_fn(int) -> Scalar,
    a: int,
    b: int,
)
    requires
        w.sound(hit),
        cautious(w.tree, hit, entry),
        w.asks() == Probe::Children(a as usize, b as usize),
        0 <= a < b < w.tree.nodes.len(),
        !w.overflows(entry(a), entry(b)),
    ensures
        w.descended(entry(a), entry(b)).sound(hit),
{
    let after = w.descended(entry(a), entry(b));
    let node = w.here();
    let c = node.first_tri_or_child as int;
    crate::bvh::lemma_node_count(w.tree);
    assert(w.tree.node_ok(w.node as int));
    assert(a == c && b == c + 1);
    assert(w.tree.node_ok(c));
    assert(w.tree.node_ok(c + 1));
    if w.stack.len() > 0 {
        assert(w.tree.node_ok(w.stack.last() as int));
    }
    assert forall|j: int| 0 <= j < after.stack.len() implies (#[trigger] after.stack[j])
        < after.tree.nodes.len() by {
        if j < w.stack.len() {
            assert(after.stack[j] == w.stack[j]);
        }
    }
    assert(after.wf());
    assert forall|t: int| 0 <= t < w.tree.tris.len() && (#[trigger] hit(t)).beats(after.best) implies after.awaits(
        t,
    ) by {
        assert(w.awaits(t));
        assert(hit(t).distance.lt(Scalar { bits: FAR_BITS }));
        if under(w.tree.nodes, w.node as int, t) {
            let k = if under(w.tree.nodes, c, t) {
                c
            } else {
                c + 1
            };
            assert(under(w.tree.nodes, k, t));
            assert(entry(k).le(hit(t).distance));
            assert(w.worth(entry(k)));
            if w.worth(entry(a)) && w.worth(entry(b)) {
                if after.node != k {
                    assert(after.stack[w.stack.len() as int] == k);
                    assert(under(after.tree.nodes, after.stack[w.stack.len() as int] as int, t));
                } else {
                    assert(under(after.tree.nodes, after.node as int, t));
                }
            } else {
                assert(after.node == k);
                assert(under(after.tree.nodes, after.node as int, t));
            }
        } else {
            let j = choose|j: int|
                0 <= j < w.stack.len() && under(w.tree.nodes, #[trigger] w.stack[j] as int, t);
            if w.worth(entry(a)) || w.worth(entry(b)) {
                assert(after.stack[j] == w.stack[j]);
            } else {
                if j == w.stack.len() - 1 {
                    assert(under(after.tree.nodes, after.node as int, t));
                } else {
                    assert(after.stack[j] == w.stack[j]);
                }
            }
        }
    }
}

/// The scan without a hierarchy ends with the record of no hit or of some
/// triangle, which no triangle beats.
pub proof fn lemma_scan(hit: spec_fn(int) -> HitInfo, n: int)
    requires
        0 <= n,
    ensures
        scan(hit, n).settled(),
        scan(hit, n).has_hit ==> exists|t: int| 0 <= t < n && #[trigger] hit(t) == scan(hit, n),
        forall|t: int| 0 <= t < n ==> !(#[trigger] hit(t)).beats(scan(hit, n)),
    decreases n,
{
    if n > 0 {
        lemma_scan(hit, n - 1);
        let before = scan(hit, n - 1);
        let after = scan(hit, n);
        if before.has_hit {
            let t = choose|t: int| 0 <= t < n - 1 && #[trigger] hit(t) == before;
            assert(hit(t) == before);
        }
        assert forall|t: int| 0 <= t < n implies !(#[trigger] hit(t)).beats(after) by {
            if t < n - 1 {
                assert(!hit(t).beats(before));
            }
        }
    }
}

/// A search that stayed on course ends with the nearest hit: no triangle
/// beats its best record, which is the record of a triangle if any triangle
/// is hit, and it agrees with the scan of all triangles without a hierarchy
/// on whether anything is hit and at what distance.
pub proof fn law_search_finds_closest(w: Walk, hit: spec_fn(int) -> HitInfo)
    requires
        w.sound(hit),
        w.asks() == Probe::Done,
    ensures
        forall|t: int| 0 <= t < w.tree.tris.len() ==> !(#[trigger] hit(t)).beats(w.best),
        w.best.has_hit ==> exists|t: int| 0 <= t < w.tree.tris.len() && #[trigger] hit(t) == w.best,
        w.best.has_hit == scan(hit, w.tree.tris.len() as int).has_hit,
        w.best.distance.ordinal() == scan(hit, w.tree.tris.len() as int).distance.ordinal(),
{
    let n = w.tree.tris.len() as int;
    let linear = scan(hit, n);
    lemma_scan(hit, n);
    assert forall|t: int| 0 <= t < n implies !(#[trigger] hit(t)).beats(w.best) by {
        if hit(t).beats(w.best) {
            assert(w.awaits(t));
        }
    }
    if linear.has_hit {
        let t = choose|t: int| 0 <= t < n && #[trigger] hit(t) == linear;
        assert(!hit(t).beats(w.best));
    }
    if w.best.has_hit {
        let t = choose|t: int| 0 <= t < n && #[trigger] hit(t) == w.best;
        assert(!hit(t).beats(linear));
    }
}

/// The most questions that a search can ask below node `n`: one for each
/// triangle of a leaf, and one for a fork besides those of its children.
pub open spec fn effort(nodes: Seq<Node>, n: int) -> nat
    decreases nodes.len() - n,
{
    if 0 <= n < nodes.len() {
        let node = nodes[n];
        let c = node.first_tri_or_child as int;
        if node.num_tris > 0 {
            node.num_tris as nat
        } else if n < c && c + 1 < nodes.len() {
            1 + effort(nodes, c) + effort(nodes, c + 1)
        } else {
            1
        }
    } else {
        0
    }
}

/// The most questions that a search can ask below the nodes that wait.
pub open spec fn waiting_effort(nodes: Seq<Node>, stack: Seq<u32>) -> nat
    decreases stack.len(),
{
    if stack.len() == 0 {
        0
    } else {
        waiting_effort(nodes, stack.drop_last()) + effort(nodes, stack.last() as int)
    }
}

/// Every answer brings a search nearer to its end: an answer that the
/// search takes uses up at least one of the questions that it can still
/// ask.
pub proof fn law_search_progress(w: Walk, hit: HitInfo, left: Scalar, right: Scalar)
    requires
        w.wf(),
    ensures
        w.at_leaf() ==> w.offered(hit).effort_left() < w.effort_left(),
        w.at_fork() && !w.overflows(left, right) ==> w.descended(left, right).effort_left()
            < w.effort_left(),
        w.asks() == Probe::Done <==> !w.running,
{
    if w.running {
        let nodes = w.tree.nodes;
        let node = w.here();
        let c = node.first_tri_or_child;
        assert(w.tree.node_ok(w.node as int));
        lemma_node_count(w.tree);
        if w.stack.len() > 0 {
            assert(w.tree.node_ok(w.stack.last() as int));
        }
        if node.num_tris == 0 {
            assert(w.tree.node_ok(c as int));
            assert(w.tree.node_ok(c + 1));
            assert(w.stack.push(c).drop_last() =~= w.stack);
            assert(w.stack.push((c + 1) as u32).drop_last() =~= w.stack);
            assert(effort(nodes, w.node as int) == 1 + effort(nodes, c as int) + effort(
                nodes,
                c + 1,
            ));
        }
    }
}

/// What a search ends with: the nearest hit that it found, and the most
/// nodes that it made wait at one time.
pub struct Found {
    pub best: HitInfo,
    pub peak: nat,
}

/// The best record after the triangles `lo .. hi` have been offered one
/// after the other to a search whose best record was `best`.
pub open spec fn offers(hit: spec_fn(int) -> HitInfo, lo: int, hi: int, best: HitInfo) -> HitInfo
    decreases hi - lo,
{
    if hi <= lo {
        best
    } else {
        offers(
            hit,
            lo + 1,
            hi,
            if hit(lo).beats(best) {
                hit(lo)
            } else {
                best
            },
        )
    }
}

/// What a search that turns to node `n` with the best record `best` ends
/// with, once it has dealt with all that lies below `n`.
///
/// At a leaf every triangle is offered in turn, and nothing waits. At a
/// fork a child is worth a visit if the ray enters it strictly before the
/// best hit so far. With both children worth one, the search goes down the
/// child that is entered first, the first child where both are entered
/// together, while the other waits, and then down the other with what the
/// first descent found. With one child worth a visit it goes down that
/// child, and with none it finds nothing new.
pub open spec fn descent(
    nodes: Seq<Node>,
    n: int,
    best: HitInfo,
    hit: spec_fn(int) -> HitInfo,
    entry: spec_fn(int) -> Scalar,
) -> Found
    decreases nodes.len() - n,
{
    if 0 <= n < nodes.len() {
        let node = nodes[n];
        let c = node.first_tri_or_child as int;
        if node.num_tris > 0 {
            Found { best: offers(hit, c, c + node.num_tris, best), peak: 0 }
        } else if n < c && c + 1 < nodes.len() {
            let left = entry(c).lt(best.distance);
            let right = entry(c + 1).lt(best.distance);
            if left && right {
                let near = if entry(c + 1).lt(entry(c)) {
                    c + 1
                } else {
                    c
                };
                let far = if entry(c + 1).lt(entry(c)) {
                    c
                } else {
                    c + 1
                };
                let first = descent(nodes, near, best, hit, entry);
                let second = descent(nodes, far, first.best, hit, entry);
                Found {
                    best: second.best,
                    peak: if first.peak + 1 >= second.peak {
                        first.peak + 1
                    } else {
                        second.peak
                    },
                }
            } else if left {
                descent(nodes, c, best, hit, entry)
            } else if right {
                descent(nodes, c + 1, best, hit, entry)
            } else {
                Found { best, peak: 0 }
            }
        } else {
            Found { best, peak: 0 }
        }
    } else {
        Found { best, peak: 0 }
    }
}

/// What a search ends with that has nothing left but the nodes that wait:
/// it goes down the one that waited last, and then down the others with
/// what it found. While it is below one of them, those that waited before
/// it wait on.
pub open spec fn waiting_descent(
    nodes: Seq<Node>,
    stack: Seq<u32>,
    best: HitInfo,
    hit: spec_fn(int) -> HitInfo,
    entry: spec_fn(int) -> Scalar,
) -> Found
    decreases stack.len(),
{
    if stack.len() == 0 {
        Found { best, peak: 0 }
    } else {
        let top = descent(nodes, stack.last() as int, best, hit, entry);
        let below = waiting_descent(nodes, stack.drop_last(), top.best, hit, entry);
        Found {
            best: below.best,
            peak: if (stack.len() - 1 + top.peak) >= below.peak {
                (stack.len() - 1 + top.peak) as nat
            } else {
                below.peak
            },
        }
    }
}

impl Walk {
    /// What the search ends with once it has dealt with the node that it
    /// is at: at a leaf, with the triangles that have not had their turn.
    pub open spec fn ahead(self, hit: spec_fn(int) -> HitInfo, entry: spec_fn(int) -> Scalar) -> Found {
        if self.here().num_tris > 0 {
            Found {
                best: offers(
                    hit,
                    self.here().first_tri_or_child + self.tri,
                    self.here().first_tri_or_child + self.here().num_tris,
                    self.best,
                ),
                peak: 0,
            }
        } else {
            descent(self.tree.nodes, self.node as int, self.best, hit, entry)
        }
    }

    /// What the search ends with, from where it is: the nearest hit, and
    /// the most nodes that wait at one time from now on.
    pub open spec fn rest(self, hit: spec_fn(int) -> HitInfo, entry: spec_fn(int) -> Scalar) -> Found {
        if !self.running {
            Found { best: self.best, peak: 0 }
        } else {
            let here = self.ahead(hit, entry);
            let below = waiting_descent(self.tree.nodes, self.stack, here.best, hit, entry);
            Found {
                best: below.best,
                peak: if self.stack.len() + here.peak >= below.peak {
                    self.stack.len() + here.peak
                } else {
                    below.peak
                },
            }
        }
    }

    /// Whether the search would make more than [`STACK_DEPTH`] nodes wait
    /// at one time before it ends.
    pub open spec fn crowded(self, hit: spec_fn(int) -> HitInfo, entry: spec_fn(int) -> Scalar) -> bool {
        self.rest(hit, entry).peak > STACK_DEPTH
    }
}

/// A search that has just turned to a node has the descent from that node
/// ahead of it.
pub proof fn lemma_ahead_of_arrival(w: Walk, hit: spec_fn(int) -> HitInfo, entry: spec_fn(int) -> Scalar)
    requires
        w.running,
        w.node < w.tree.nodes.len(),
        w.tri == 0,
    ensures
        w.ahead(hit, entry) == descent(w.tree.nodes, w.node as int, w.best, hit, entry),
{
}

/// Turning to the node that waited last changes nothing in what the search
/// ends with, nor in whether it gets crowded.
pub proof fn lemma_pop_keeps_rest(w: Walk, hit: spec_fn(int) -> HitInfo, entry: spec_fn(int) -> Scalar)
    requires
        w.wf(),
        w.running,
    ensures
        w.popped().rest(hit, entry).best == waiting_descent(
            w.tree.nodes,
            w.stack,
            w.best,
            hit,
            entry,
        ).best,
        w.popped().crowded(hit, entry) == (waiting_descent(w.tree.nodes, w.stack, w.best, hit, entry).peak
            > STACK_DEPTH),
{
    let after = w.popped();
    if w.stack.len() > 0 {
        assert(w.tree.node_ok(w.stack.last() as int));
        lemma_ahead_of_arrival(after, hit, entry);
    }
}

/// A search at a leaf ends with the same nearest hit, and gets crowded or
/// not all the same, after it has been told the true intersection with the
/// triangle that it asked for.
pub proof fn law_offer_keeps_rest(w: Walk, hit: spec_fn(int) -> HitInfo, entry: spec_fn(int) -> Scalar)
    requires
        w.wf(),
        w.at_leaf(),
    ensures
        w.offered(hit(w.here().first_tri_or_child + w.tri)).rest(hit, entry).best == w.rest(
            hit,
            entry,
        ).best,
        w.offered(hit(w.here().first_tri_or_child + w.tri)).crowded(hit, entry) == w.crowded(
            hit,
            entry,
        ),
{
    let t0 = w.here().first_tri_or_child + w.tri;
    let end = w.here().first_tri_or_child + w.here().num_tris;
    let told = hit(t0);
    let best = if told.beats(w.best) {
        told
    } else {
        w.best
    };
    assert(offers(hit, t0, end, w.best) == offers(hit, t0 + 1, end, best));
    if w.tri + 1 < w.here().num_tris {
    } else {
        assert(offers(hit, t0 + 1, end, best) == best);
        lemma_pop_keeps_rest(Walk { best, ..w }, hit, entry);
    }
}

/// A search at a fork that is told the true distances at which the ray
/// enters the two children stops for want of room only where it would get
/// crowded; and where it goes on, it ends with the same nearest hit, and
/// gets crowded or not all the same.
pub proof fn law_descend_keeps_rest(w: Walk, hit: spec_fn(int) -> HitInfo, entry: spec_fn(int) -> Scalar)
    requires
        w.wf(),
        w.at_fork(),
    ensures
        ({
            let c = w.here().first_tri_or_child as int;
            let after = w.descended(entry(c), entry(c + 1));
            &&& w.overflows(entry(c), entry(c + 1)) ==> w.crowded(hit, entry)
            &&& !w.overflows(entry(c), entry(c + 1)) ==> after.rest(hit, entry).best == w.rest(
                hit,
                entry,
            ).best && after.crowded(hit, entry) == w.crowded(hit, entry)
        }),
{
    let nodes = w.tree.nodes;
    let c = w.here().first_tri_or_child as int;
    let left = entry(c);
    let right = entry(c + 1);
    let after = w.descended(left, right);
    assert(w.tree.node_ok(w.node as int));
    lemma_node_count(w.tree);
    assert(w.tree.node_ok(c));
    assert(w.tree.node_ok(c + 1));
    if w.worth(left) && w.worth(right) {
        let near = if right.lt(left) {
            c + 1
        } else {
            c
        };
        let far = if right.lt(left) {
            c
        } else {
            c + 1
        };
        let first = descent(nodes, near, w.best, hit, entry);
        let second = descent(nodes, far, first.best, hit, entry);
        assert(w.ahead(hit, entry).best == second.best);
        assert(w.ahead(hit, entry).peak >= first.peak + 1);
        if !w.overflows(left, right) {
            lemma_ahead_of_arrival(after, hit, entry);
            assert(after.stack.drop_last() =~= w.stack);
            assert(after.stack.last() == far);
            assert(after.node == near);
            let below = waiting_descent(nodes, w.stack, second.best, hit, entry);
            assert(waiting_descent(nodes, after.stack, first.best, hit, entry).best == below.best);
            assert(waiting_descent(nodes, after.stack, first.best, hit, entry).peak == if w.stack.len()
                + second.peak >= below.peak {
                w.stack.len() + second.peak
            } else {
                below.peak
            });
        }
    } else if w.worth(left) || w.worth(right) {
        lemma_ahead_of_arrival(after, hit, entry);
    } else {
        lemma_pop_keeps_rest(w, hit, entry);
    }
}

/// A search starts with the descent from the root ahead of it.
pub proof fn law_search_begins_with_descent(
    tree: Tree,
    hit: spec_fn(int) -> HitInfo,
    entry: spec_fn(int) -> Scalar,
)
    requires
        tree.wf(),
    ensures
        Walk::begin(tree).rest(hit, entry) == descent(tree.nodes, 0, no_hit(), hit, entry),
{
    let w = Walk::begin(tree);
    assert(tree.node_ok(0));
    if tree.tris.len() > 0 {
        lemma_ahead_of_arrival(w, hit, entry);
    }
}

impl Ray {
    /// The nearest hit of a ray whose intersections are all known: `hits`
    /// holds the intersection with each triangle of `bvh`, in the order of
    /// its triangles, and `entries` the distance at which the ray enters
    /// the box of each node, the far distance standing for a miss.
    ///
    /// The search asks the tables in place of a caller. It fails exactly
    /// where the descent from the root would make more than
    /// [`STACK_DEPTH`] nodes wait at one time, and else returns the nearest
    /// hit that this descent finds ([`descent`]). Where the box tests never
    /// hide a hit, that is what a scan of `hits` ends with: whether
    /// anything is hit, and at what distance.
    pub fn traverse_bvh(
        bvh: &BVH,
        hits: &Vec<HitInfo>,
        entries: &Vec<Scalar>,
    ) -> (r: Result<HitInfo, TraversalError>)
        requires
            bvh@.wf(),
            hits.len() == bvh@.tris.len(),
            entries.len() == bvh@.nodes.len(),
        ensures
            r.is_err() <==> descent(bvh@.nodes, 0, no_hit(), |t: int| hits[t], |n: int| entries[n]).peak
                > STACK_DEPTH,
            r.is_ok() ==> r.unwrap() == descent(
                bvh@.nodes,
                0,
                no_hit(),
                |t: int| hits[t],
                |n: int| entries[n],
            ).best,
            r.is_ok() && cautious(bvh@, |t: int| hits[t], |n: int| entries[n]) ==> {
                let best = r.unwrap();
                let linear = scan(|t: int| hits[t], hits.len() as int);
                &&& best.has_hit == linear.has_hit
                &&& best.distance.ordinal() == linear.distance.ordinal()
                &&& best.has_hit ==> exists|t: int| 0 <= t < hits.len() && #[trigger] hits[t] == best
                &&& forall|t: int| 0 <= t < hits.len() ==> !(#[trigger] hits[t]).beats(best)
            },
    {
        let ghost hit = |t: int| hits[t];
        let ghost entry = |n: int| entries[n];
        let ghost whole = descent(bvh@.nodes, 0, no_hit(), hit, entry);
        let mut search = Traversal::start(bvh);
        proof {
            law_search_begins(bvh@, hit);
            law_search_begins_with_descent(bvh@, hit, entry);
        }
        loop
            invariant
                search@.wf(),
                search@.tree == bvh@,
                hits.len() == bvh@.tris.len(),
                entries.len() == bvh@.nodes.len(),
                hit == (|t: int| hits[t]),
                entry == (|n: int| entries[n]),
                whole == descent(bvh@.nodes, 0, no_hit(), hit, entry),
                search@.rest(hit, entry).best == whole.best,
                search@.crowded(hit, entry) == (whole.peak > STACK_DEPTH),
                cautious(bvh@, hit, entry) ==> search@.sound(hit),
            decreases search@.effort_left(),
        {
            let ghost before = search@;
            match search.probe() {
                Probe::Done => {
                    let best = search.best();
                    proof {
                        if cautious(bvh@, hit, entry) {
                            law_search_finds_closest(before, hit);
                            assert forall|t: int| 0 <= t < hits.len() implies !(#[trigger] hits[t]).beats(
                                best,
                            ) by {
                                assert(hit(t) == hits[t]);
                            }
                            if best.has_hit {
                                let t = choose|t: int|
                                    0 <= t < before.tree.tris.len() && #[trigger] hit(t) == before.best;
                                assert(hits[t] == best);
                            }
                        }
                    }
                    return Ok(best);
                },
                Probe::Triangle(t) => {
                    proof {
                        law_search_progress(before, hits[t as int], entries[0], entries[0]);
                        assert(before.tree.node_ok(before.node as int));
                        assert(t as int == before.here().first_tri_or_child + before.tri);
                        law_offer_keeps_rest(before, hit, entry);
                        assert(hit(t as int) == hits[t as int]);
                        if cautious(bvh@, hit, entry) {
                            law_offer_keeps_course(before, hit, t as int);
                        }
                    }
                    search.offer(hits[t]);
                },
                Probe::Children(a, b) => {
                    let left: Scalar = entries[a];
                    let right: Scalar = entries[b];
                    proof {
                        law_search_progress(before, hits[0], left, right);
                        assert(before.tree.node_ok(before.node as int));
                        lemma_node_count(before.tree);
                        assert(a as int == before.here().first_tri_or_child);
                        assert(b as int == before.here().first_tri_or_child + 1);
                        law_descend_keeps_rest(before, hit, entry);
                        assert(entry(a as int) == left && entry(b as int) == right);
                    }
                    match search.descend(left, right) {
                        Err(e) => {
                            return Err(e);
                        },
                        Ok(()) => {},
                    }
                    proof {
                        if cautious(bvh@, hit, entry) {
                            law_descend_keeps_course(before, hit, entry, a as int, b as int);
                        }
                    }
                },
            }
        }
    }
}

} // verus!
