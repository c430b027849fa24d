//! The nodes of the hierarchy and their bounds: what it means for bounds to
//! be tight, and why growing, reordering and joining keep them so.

use vstd::prelude::*;
use crate::bvh::sides::shuffled;
use crate::scalar::{Scalar, LOWEST_BITS, MAX_BITS};
use crate::scene::Triangle;
use crate::vector::Vec3f;

verus! {

/// A node of the hierarchy.
///
/// With `num_tris > 0` the node is a leaf over the triangles
/// `first_tri_or_child .. first_tri_or_child + num_tris`. With `num_tris == 0`
/// it is an interior node whose children are the nodes `first_tri_or_child`
/// and `first_tri_or_child + 1`.
#[derive(Clone, Copy, Debug)]
pub struct Node {
    pub bounds_min: Vec3f,
    pub first_tri_or_child: u32,
    pub bounds_max: Vec3f,
    pub num_tris: u32,
}

/// The bounds that hold nothing: growing them by any value gives that value.
pub open spec fn empty_node() -> Node {
    Node {
        bounds_min: Vec3f {
            data: [Scalar { bits: MAX_BITS }, Scalar { bits: MAX_BITS }, Scalar { bits: MAX_BITS }],
        },
        first_tri_or_child: 0,
        bounds_max: Vec3f {
            data: [
                Scalar { bits: LOWEST_BITS },
                Scalar { bits: LOWEST_BITS },
                Scalar { bits: LOWEST_BITS },
            ],
        },
        num_tris: 0,
    }
}

/// The indices `lo .. hi`.
pub open spec fn span(lo: int, hi: int) -> Set<int> {
    Set::new(|t: int| lo <= t < hi)
}

/// Whether some corner of a triangle chosen by `sel` has exactly the value `s`
/// as its coordinate on axis `ax`.
pub open spec fn attains(tris: Seq<Triangle>, sel: Set<int>, ax: int, s: Scalar) -> bool {
    exists|t: int, v: int|
        sel.contains(t) && 0 <= t < tris.len() && 0 <= v < 3 && #[trigger] tris[t].coord(v, ax)
            == s
}

impl Node {
    /// Lower bound on axis `ax`.
    pub open spec fn lo(self, ax: int) -> Scalar {
        self.bounds_min.data[ax]
    }

    /// Upper bound on axis `ax`.
    pub open spec fn hi(self, ax: int) -> Scalar {
        self.bounds_max.data[ax]
    }

    /// Whether the node is a leaf: it holds triangles.
    pub open spec fn is_leaf(self) -> bool {
        self.num_tris > 0
    }

    /// Whether triangle index `t` lies in the range of this leaf.
    pub open spec fn has(self, t: int) -> bool {
        self.num_tris > 0 && self.first_tri_or_child <= t < self.first_tri_or_child
            + self.num_tris
    }

    /// Whether the bounds on axis `ax` enclose `x`. A NaN is enclosed by any
    /// bounds: it has no place on the axis.
    pub open spec fn spans(self, ax: int, x: Scalar) -> bool {
        x.is_nan() || self.lo(ax).ordinal() <= x.ordinal() <= self.hi(ax).ordinal()
    }

    /// Whether the bounds enclose every corner of `tri`.
    pub open spec fn encloses(self, tri: Triangle) -> bool {
        forall|v: int, ax: int| 0 <= v < 3 && 0 <= ax < 3 ==> self.spans(ax, #[trigger] tri.coord(v, ax))
    }

    /// The lower bound after growing by the three corners of `tri`, on axis
    /// `ax`.
    pub open spec fn grown_lo(self, tri: Triangle, ax: int) -> Scalar {
        self.lo(ax).min_of(tri.coord(0, ax)).min_of(tri.coord(1, ax)).min_of(tri.coord(2, ax))
    }

    /// The upper bound after growing by the three corners of `tri`, on axis
    /// `ax`.
    pub open spec fn grown_hi(self, tri: Triangle, ax: int) -> Scalar {
        self.hi(ax).max_of(tri.coord(0, ax)).max_of(tri.coord(1, ax)).max_of(tri.coord(2, ax))
    }

    /// Whether the bounds are the tight axis-aligned box of the corners of the
    /// triangles that `sel` chooses: no bound is a NaN, every corner is
    /// enclosed, and each bound is the coordinate of some corner, or still
    /// the bound of the empty box where no corner reaches it.
    pub open spec fn tight(self, tris: Seq<Triangle>, sel: Set<int>) -> bool {
        &&& forall|t: int| sel.contains(t) && 0 <= t < tris.len() ==> self.encloses(#[trigger] tris[t])
        &&& forall|ax: int|
            0 <= ax < 3 ==> {
                &&& (#[trigger] self.lo(ax)).le(Scalar { bits: MAX_BITS })
                &&& self.lo(ax).bits == MAX_BITS || attains(tris, sel, ax, self.lo(ax))
            }
        &&& forall|ax: int|
            0 <= ax < 3 ==> {
                &&& (Scalar { bits: LOWEST_BITS }).le(#[trigger] self.hi(ax))
                &&& self.hi(ax).bits == LOWEST_BITS || attains(tris, sel, ax, self.hi(ax))
            }
    }

    /// Whether the bounds are the smallest that enclose the bounds of `a`
    /// and of `b`.
    pub open spec fn hull_of(self, a: Node, b: Node) -> bool {
        forall|ax: int| 0 <= ax < 3 ==> #[trigger] self.hull_on(a, b, ax)
    }

    /// Whether the bounds on axis `ax` are the smallest that enclose those
    /// of `a` and of `b`.
    pub open spec fn hull_on(self, a: Node, b: Node, ax: int) -> bool {
        &&& self.lo(ax).ordinal() == if a.lo(ax).ordinal() <= b.lo(ax).ordinal() {
            a.lo(ax).ordinal()
        } else {
            b.lo(ax).ordinal()
        }
        &&& self.hi(ax).ordinal() == if a.hi(ax).ordinal() >= b.hi(ax).ordinal() {
            a.hi(ax).ordinal()
        } else {
            b.hi(ax).ordinal()
        }
    }

    /// Widens the bounds so that they enclose the three corners of `tri`.
    pub fn grow_by_tri(&mut self, tri: &Triangle)
        ensures
            forall|ax: int| 0 <= ax < 3 ==> #[trigger] final(self).lo(ax) == old(self).grown_lo(*tri, ax),
            forall|ax: int| 0 <= ax < 3 ==> #[trigger] final(self).hi(ax) == old(self).grown_hi(*tri, ax),
            final(self).first_tri_or_child == old(self).first_tri_or_child,
            final(self).num_tris == old(self).num_tris,
    {
        let p0: [Scalar; 3] = tri.vertices[0].position;
        let p1: [Scalar; 3] = tri.vertices[1].position;
        let p2: [Scalar; 3] = tri.vertices[2].position;
        let lo: [Scalar; 3] = self.bounds_min.data;
        let hi: [Scalar; 3] = self.bounds_max.data;
        self.bounds_min = Vec3f {
            data: [
                lo[0].min(p0[0]).min(p1[0]).min(p2[0]),
                lo[1].min(p0[1]).min(p1[1]).min(p2[1]),
                lo[2].min(p0[2]).min(p1[2]).min(p2[2]),
            ],
        };
        self.bounds_max = Vec3f {
            data: [
                hi[0].max(p0[0]).max(p1[0]).max(p2[0]),
                hi[1].max(p0[1]).max(p1[1]).max(p2[1]),
                hi[2].max(p0[2]).max(p1[2]).max(p2[2]),
            ],
        };
    }

    /// Whether the lower bound on `ax` is at or below every corner of `tri`.
    pub open spec fn spans_lo(self, ax: int, tri: Triangle) -> bool {
        forall|v: int|
            0 <= v < 3 ==> (#[trigger] tri.coord(v, ax)).is_nan() || self.lo(ax).ordinal()
                <= tri.coord(v, ax).ordinal()
    }

    /// Whether the upper bound on `ax` is at or above every corner of `tri`.
    pub open spec fn spans_hi(self, ax: int, tri: Triangle) -> bool {
        forall|v: int|
            0 <= v < 3 ==> (#[trigger] tri.coord(v, ax)).is_nan() || tri.coord(v, ax).ordinal()
                <= self.hi(ax).ordinal()
    }
}

impl Default for Node {
    /// A node with the bounds of the empty box, no triangles and no children.
    fn default() -> (r: Node)
        ensures
            r == empty_node(),
    {
        let top: Scalar = Scalar { bits: MAX_BITS };
        let bottom: Scalar = Scalar { bits: LOWEST_BITS };
        Node {
            bounds_min: Vec3f { data: [top, top, top] },
            first_tri_or_child: 0,
            bounds_max: Vec3f { data: [bottom, bottom, bottom] },
            num_tris: 0,
        }
    }
}

/// Growing tight bounds by one more triangle keeps them tight.
pub proof fn lemma_grow_tight(before: Node, after: Node, tris: Seq<Triangle>, sel: Set<int>, t: int)
    requires
        before.tight(tris, sel),
        0 <= t < tris.len(),
        forall|ax: int| 0 <= ax < 3 ==> #[trigger] after.lo(ax) == before.grown_lo(tris[t], ax),
        forall|ax: int| 0 <= ax < 3 ==> #[trigger] after.hi(ax) == before.grown_hi(tris[t], ax),
    ensures
        after.tight(tris, sel.insert(t)),
{
    let grown = sel.insert(t);
    assert forall|ax: int| 0 <= ax < 3 implies {
        &&& (#[trigger] after.lo(ax)).le(Scalar { bits: MAX_BITS })
        &&& after.lo(ax).ordinal() <= before.lo(ax).ordinal()
        &&& after.spans_lo(ax, tris[t])
        &&& after.lo(ax).bits == MAX_BITS || attains(tris, grown, ax, after.lo(ax))
    } by {
        let a = before.lo(ax);
        let c0 = tris[t].coord(0, ax);
        let c1 = tris[t].coord(1, ax);
        let c2 = tris[t].coord(2, ax);
        let r = after.lo(ax);
        assert(r == a.min_of(c0).min_of(c1).min_of(c2));
        if r == c0 || r == c1 || r == c2 {
            assert(attains(tris, grown, ax, r));
        } else {
            assert(r == a);
            if a.bits != MAX_BITS {
                let (t0, v0) = choose|t0: int, v0: int|
                    sel.contains(t0) && 0 <= t0 < tris.len() && 0 <= v0 < 3 && #[trigger] tris[t0].coord(
                        v0,
                        ax,
                    ) == a;
                assert(grown.contains(t0));
                assert(attains(tris, grown, ax, r));
            }
        }
    }
    assert forall|ax: int| 0 <= ax < 3 implies {
        &&& (Scalar { bits: LOWEST_BITS }).le(#[trigger] after.hi(ax))
        &&& before.hi(ax).ordinal() <= after.hi(ax).ordinal()
        &&& after.spans_hi(ax, tris[t])
        &&& after.hi(ax).bits == LOWEST_BITS || attains(tris, grown, ax, after.hi(ax))
    } by {
        let a = before.hi(ax);
        let c0 = tris[t].coord(0, ax);
        let c1 = tris[t].coord(1, ax);
        let c2 = tris[t].coord(2, ax);
        let r = after.hi(ax);
        assert(r == a.max_of(c0).max_of(c1).max_of(c2));
        if r == c0 || r == c1 || r == c2 {
            assert(attains(tris, grown, ax, r));
        } else {
            assert(r == a);
            if a.bits != LOWEST_BITS {
                let (t0, v0) = choose|t0: int, v0: int|
                    sel.contains(t0) && 0 <= t0 < tris.len() && 0 <= v0 < 3 && #[trigger] tris[t0].coord(
                        v0,
                        ax,
                    ) == a;
                assert(grown.contains(t0));
                assert(attains(tris, grown, ax, r));
            }
        }
    }
    assert forall|u: int| grown.contains(u) && 0 <= u < tris.len() implies after.encloses(
        #[trigger] tris[u],
    ) by {
        assert forall|v: int, ax: int| 0 <= v < 3 && 0 <= ax < 3 implies after.spans(
            ax,
            #[trigger] tris[u].coord(v, ax),
        ) by {
            assert(after.lo(ax).le(Scalar { bits: MAX_BITS }));
            assert((Scalar { bits: LOWEST_BITS }).le(after.hi(ax)));
            if u == t {
                assert(after.spans_lo(ax, tris[t]));
                assert(after.spans_hi(ax, tris[t]));
            } else {
                assert(before.encloses(tris[u]));
                assert(before.spans(ax, tris[u].coord(v, ax)));
            }
        }
    }
}

/// The tight bounds of no triangles are the bounds that hold nothing.
pub proof fn lemma_tight_nothing(node: Node, tris: Seq<Triangle>)
    requires
        node.tight(tris, span(0, 0)),
        node.first_tri_or_child == 0,
        node.num_tris == 0,
    ensures
        node == empty_node(),
{
    assert forall|ax: int| 0 <= ax < 3 implies node.lo(ax).bits == MAX_BITS && node.hi(ax).bits
        == LOWEST_BITS by {
        assert(node.lo(ax).le(Scalar { bits: MAX_BITS }));
        assert((Scalar { bits: LOWEST_BITS }).le(node.hi(ax)));
    }
    assert(node.lo(0).bits == MAX_BITS && node.lo(1).bits == MAX_BITS && node.lo(2).bits == MAX_BITS);
    assert(node.hi(0).bits == LOWEST_BITS && node.hi(1).bits == LOWEST_BITS && node.hi(2).bits
        == LOWEST_BITS);
    assert(node.bounds_min.data@ =~= empty_node().bounds_min.data@);
    assert(node.bounds_max.data@ =~= empty_node().bounds_max.data@);
    assert(node.bounds_min.data == empty_node().bounds_min.data);
    assert(node.bounds_max.data == empty_node().bounds_max.data);
}

/// Tightness is a matter of the bounds alone.
pub proof fn lemma_same_bounds_tight(a: Node, b: Node, tris: Seq<Triangle>, sel: Set<int>)
    requires
        a.tight(tris, sel),
        a.bounds_min == b.bounds_min,
        a.bounds_max == b.bounds_max,
    ensures
        b.tight(tris, sel),
{
    assert forall|ax: int| 0 <= ax < 3 implies #[trigger] b.lo(ax) == a.lo(ax) && #[trigger] b.hi(ax)
        == a.hi(ax) by {}
    assert forall|t: int| sel.contains(t) && 0 <= t < tris.len() implies b.encloses(
        #[trigger] tris[t],
    ) by {
        assert(a.encloses(tris[t]));
        assert forall|v: int, ax: int| 0 <= v < 3 && 0 <= ax < 3 implies b.spans(
            ax,
            #[trigger] tris[t].coord(v, ax),
        ) by {
            assert(a.spans(ax, tris[t].coord(v, ax)));
        }
    }
    assert forall|ax: int| 0 <= ax < 3 implies {
        &&& (#[trigger] b.lo(ax)).le(Scalar { bits: MAX_BITS })
        &&& b.lo(ax).bits == MAX_BITS || attains(tris, sel, ax, b.lo(ax))
    } by {
        assert(a.lo(ax).le(Scalar { bits: MAX_BITS }));
    }
    assert forall|ax: int| 0 <= ax < 3 implies {
        &&& (Scalar { bits: LOWEST_BITS }).le(#[trigger] b.hi(ax))
        &&& b.hi(ax).bits == LOWEST_BITS || attains(tris, sel, ax, b.hi(ax))
    } by {
        assert((Scalar { bits: LOWEST_BITS }).le(a.hi(ax)));
    }
}

/// Bounds that are tight for a set of triangles stay tight when the
/// triangles are reordered within that set.
pub proof fn lemma_tight_shuffled(
    node: Node,
    before: Seq<Triangle>,
    after: Seq<Triangle>,
    lo: int,
    hi: int,
    fwd: Seq<int>,
    bwd: Seq<int>,
    sel: Set<int>,
)
    requires
        node.tight(before, sel),
        shuffled(before, after, lo, hi, fwd, bwd),
        forall|t: int| 0 <= t < before.len() && sel.contains(t) ==> sel.contains(#[trigger] fwd[t]),
        forall|t: int| 0 <= t < before.len() && sel.contains(t) ==> sel.contains(#[trigger] bwd[t]),
    ensures
        node.tight(after, sel),
{
    assert forall|t: int| sel.contains(t) && 0 <= t < after.len() implies node.encloses(
        #[trigger] after[t],
    ) by {
        assert(after[t] == before[fwd[t]]);
        assert(node.encloses(before[fwd[t]]));
    }
    assert forall|ax: int, s: Scalar| 0 <= ax < 3 && attains(before, sel, ax, s) implies attains(
        after,
        sel,
        ax,
        s,
    ) by {
        let (t0, v0) = choose|t0: int, v0: int|
            sel.contains(t0) && 0 <= t0 < before.len() && 0 <= v0 < 3 && #[trigger] before[t0].coord(
                v0,
                ax,
            ) == s;
        let t1 = bwd[t0];
        assert(after[t1] == before[fwd[t1]]);
        assert(after[t1].coord(v0, ax) == s);
    }
    assert forall|ax: int| 0 <= ax < 3 implies {
        &&& (#[trigger] node.lo(ax)).le(Scalar { bits: MAX_BITS })
        &&& node.lo(ax).bits == MAX_BITS || attains(after, sel, ax, node.lo(ax))
    } by {}
    assert forall|ax: int| 0 <= ax < 3 implies {
        &&& (Scalar { bits: LOWEST_BITS }).le(#[trigger] node.hi(ax))
        &&& node.hi(ax).bits == LOWEST_BITS || attains(after, sel, ax, node.hi(ax))
    } by {}
}

/// Being a hull is a matter of the bounds alone.
pub proof fn lemma_hull_same_bounds(a: Node, x: Node, y: Node, a2: Node, x2: Node, y2: Node)
    requires
        a.hull_of(x, y),
        a.bounds_min == a2.bounds_min && a.bounds_max == a2.bounds_max,
        x.bounds_min == x2.bounds_min && x.bounds_max == x2.bounds_max,
        y.bounds_min == y2.bounds_min && y.bounds_max == y2.bounds_max,
    ensures
        a2.hull_of(x2, y2),
{
    assert forall|ax: int| 0 <= ax < 3 implies #[trigger] a2.hull_on(x2, y2, ax) by {
        assert(a.hull_on(x, y, ax));
    }
}

/// The tight bounds of a range are the hull of the tight bounds of its two
/// halves.
pub proof fn lemma_hull_of_halves(whole: Node, left: Node, right: Node, tris: Seq<Triangle>)
    requires
        whole.num_tris > 0,
        left.num_tris > 0,
        right.num_tris > 0,
        left.first_tri_or_child == whole.first_tri_or_child,
        right.first_tri_or_child == left.first_tri_or_child + left.num_tris,
        left.num_tris + right.num_tris == whole.num_tris,
        whole.first_tri_or_child + whole.num_tris <= tris.len(),
        whole.tight(tris, span(whole.first_tri_or_child as int, whole.first_tri_or_child + whole.num_tris)),
        left.tight(tris, span(left.first_tri_or_child as int, left.first_tri_or_child + left.num_tris)),
        right.tight(
            tris,
            span(right.first_tri_or_child as int, right.first_tri_or_child + right.num_tris),
        ),
    ensures
        whole.hull_of(left, right),
{
    let lo = whole.first_tri_or_child as int;
    let mid = right.first_tri_or_child as int;
    let hi = whole.first_tri_or_child + whole.num_tris;
    assert forall|ax: int| 0 <= ax < 3 implies #[trigger] whole.hull_on(left, right, ax) by {
        lemma_bound_below(whole, left, tris, span(lo, hi), span(lo, mid), ax);
        lemma_bound_below(whole, right, tris, span(lo, hi), span(mid, hi), ax);
        if whole.lo(ax).bits != MAX_BITS {
            let (t, v) = choose|t: int, v: int|
                span(lo, hi).contains(t) && 0 <= t < tris.len() && 0 <= v < 3 && #[trigger] tris[t].coord(
                    v,
                    ax,
                ) == whole.lo(ax);
            if t < mid {
                assert(left.encloses(tris[t]));
                assert(left.spans(ax, tris[t].coord(v, ax)));
            } else {
                assert(right.encloses(tris[t]));
                assert(right.spans(ax, tris[t].coord(v, ax)));
            }
        }
        if whole.hi(ax).bits != LOWEST_BITS {
            let (t, v) = choose|t: int, v: int|
                span(lo, hi).contains(t) && 0 <= t < tris.len() && 0 <= v < 3 && #[trigger] tris[t].coord(
                    v,
                    ax,
                ) == whole.hi(ax);
            if t < mid {
                assert(left.encloses(tris[t]));
                assert(left.spans(ax, tris[t].coord(v, ax)));
            } else {
                assert(right.encloses(tris[t]));
                assert(right.spans(ax, tris[t].coord(v, ax)));
            }
        }
    }
}

/// Tight bounds of a set lie within the tight bounds of any set that
/// contains it.
pub proof fn lemma_bound_below(
    outer: Node,
    inner: Node,
    tris: Seq<Triangle>,
    all: Set<int>,
    part: Set<int>,
    ax: int,
)
    requires
        0 <= ax < 3,
        outer.tight(tris, all),
        inner.tight(tris, part),
        part.subset_of(all),
    ensures
        outer.lo(ax).ordinal() <= inner.lo(ax).ordinal(),
        inner.hi(ax).ordinal() <= outer.hi(ax).ordinal(),
{
    assert(outer.lo(ax).le(Scalar { bits: MAX_BITS }));
    assert((Scalar { bits: LOWEST_BITS }).le(outer.hi(ax)));
    if inner.lo(ax).bits != MAX_BITS {
        let (t, v) = choose|t: int, v: int|
            part.contains(t) && 0 <= t < tris.len() && 0 <= v < 3 && #[trigger] tris[t].coord(v, ax)
                == inner.lo(ax);
        assert(outer.encloses(tris[t]));
        assert(outer.spans(ax, tris[t].coord(v, ax)));
        assert(inner.lo(ax).le(Scalar { bits: MAX_BITS }));
    }
    if inner.hi(ax).bits != LOWEST_BITS {
        let (t, v) = choose|t: int, v: int|
            part.contains(t) && 0 <= t < tris.len() && 0 <= v < 3 && #[trigger] tris[t].coord(v, ax)
                == inner.hi(ax);
        assert(outer.encloses(tris[t]));
        assert(outer.spans(ax, tris[t].coord(v, ax)));
        assert((Scalar { bits: LOWEST_BITS }).le(inner.hi(ax)));
    }
}

} // verus!
