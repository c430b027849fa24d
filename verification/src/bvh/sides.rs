//! The two sides of a splitting plane: which triangles fall on the left,
//! how many, and the in-place sorting of a range into the two sides.

use vstd::prelude::*;
use crate::scalar::Scalar;
use crate::scene::Triangle;
use crate::vector::Axis;

verus! {

/// Whether a triangle falls on the left of the plane at `position` across
/// `axis`: its midpoint is below the plane.
pub open spec fn on_left(tri: Triangle, axis: Axis, position: Scalar) -> bool {
    tri.mid_coord(axis.ix()).lt(position)
}

/// The indices in `lo .. hi` of the triangles on the left of the plane.
pub open spec fn left_part(tris: Seq<Triangle>, lo: int, hi: int, axis: Axis, position: Scalar) -> Set<
    int,
> {
    Set::new(|t: int| lo <= t < hi && 0 <= t < tris.len() && on_left(tris[t], axis, position))
}

/// The indices in `lo .. hi` of the triangles that are not on the left.
pub open spec fn right_part(tris: Seq<Triangle>, lo: int, hi: int, axis: Axis, position: Scalar) -> Set<
    int,
> {
    Set::new(|t: int| lo <= t < hi && 0 <= t < tris.len() && !on_left(tris[t], axis, position))
}

/// How many of the triangles `lo .. hi` are on the left of the plane.
pub open spec fn count_left(tris: Seq<Triangle>, lo: int, hi: int, axis: Axis, position: Scalar) -> int
    decreases hi - lo,
{
    if hi <= lo {
        0
    } else {
        count_left(tris, lo, hi - 1, axis, position) + if on_left(tris[hi - 1], axis, position) {
            1int
        } else {
            0int
        }
    }
}

/// Whether `after` is `before` with the entries `lo .. hi` reordered among
/// themselves: `fwd` sends each index of `after` to the index that its entry
/// had in `before`, and `bwd` sends it back.
pub open spec fn shuffled(
    before: Seq<Triangle>,
    after: Seq<Triangle>,
    lo: int,
    hi: int,
    fwd: Seq<int>,
    bwd: Seq<int>,
) -> bool {
    &&& after.len() == before.len()
    &&& fwd.len() == before.len()
    &&& bwd.len() == before.len()
    &&& forall|t: int|
        0 <= t < before.len() ==> {
            &&& 0 <= #[trigger] fwd[t] < before.len()
            &&& lo <= t < hi ==> lo <= fwd[t] < hi
            &&& !(lo <= t < hi) ==> fwd[t] == t
            &&& after[t] == before[fwd[t]]
            &&& bwd[fwd[t]] == t
        }
    &&& forall|t: int|
        0 <= t < before.len() ==> {
            &&& 0 <= #[trigger] bwd[t] < before.len()
            &&& lo <= t < hi ==> lo <= bwd[t] < hi
            &&& !(lo <= t < hi) ==> bwd[t] == t
            &&& fwd[bwd[t]] == t
        }
}

/// The count over a range is the sum of the counts over its two parts.
pub proof fn lemma_count_left_split(
    tris: Seq<Triangle>,
    lo: int,
    mid: int,
    hi: int,
    axis: Axis,
    position: Scalar,
)
    requires
        lo <= mid <= hi,
    ensures
        count_left(tris, lo, hi, axis, position) == count_left(tris, lo, mid, axis, position)
            + count_left(tris, mid, hi, axis, position),
    decreases hi - mid,
{
    if mid < hi {
        lemma_count_left_split(tris, lo, mid, hi - 1, axis, position);
    }
}

/// The count over a range depends on the sides of the triangles in the
/// range alone.
pub proof fn lemma_count_left_same(
    a: Seq<Triangle>,
    b: Seq<Triangle>,
    lo: int,
    hi: int,
    axis: Axis,
    position: Scalar,
)
    requires
        forall|t: int|
            lo <= t < hi ==> on_left(#[trigger] a[t], axis, position) == on_left(b[t], axis, position),
    ensures
        count_left(a, lo, hi, axis, position) == count_left(b, lo, hi, axis, position),
    decreases hi - lo,
{
    if lo < hi {
        lemma_count_left_same(a, b, lo, hi - 1, axis, position);
        assert(on_left(a[hi - 1], axis, position) == on_left(b[hi - 1], axis, position));
    }
}

/// A range of triangles that are all on the left counts in full, and a
/// range with none on the left counts zero; and the count never leaves
/// these bounds.
pub proof fn lemma_count_left_bounds(tris: Seq<Triangle>, lo: int, hi: int, axis: Axis, position: Scalar)
    requires
        lo <= hi,
    ensures
        0 <= count_left(tris, lo, hi, axis, position) <= hi - lo,
        count_left(tris, lo, hi, axis, position) == hi - lo <==> forall|t: int|
            lo <= t < hi ==> on_left(#[trigger] tris[t], axis, position),
        count_left(tris, lo, hi, axis, position) == 0 <==> forall|t: int|
            lo <= t < hi ==> !on_left(#[trigger] tris[t], axis, position),
    decreases hi - lo,
{
    if lo < hi {
        lemma_count_left_bounds(tris, lo, hi - 1, axis, position);
        if count_left(tris, lo, hi, axis, position) == hi - lo {
            assert forall|t: int| lo <= t < hi implies on_left(#[trigger] tris[t], axis, position) by {
                if t < hi - 1 {
                }
            }
        }
        if count_left(tris, lo, hi, axis, position) == 0 {
            assert forall|t: int| lo <= t < hi implies !on_left(#[trigger] tris[t], axis, position) by {
                if t < hi - 1 {
                }
            }
        }
        if forall|t: int| lo <= t < hi ==> on_left(#[trigger] tris[t], axis, position) {
            assert(on_left(tris[hi - 1], axis, position));
        }
        if forall|t: int| lo <= t < hi ==> !on_left(#[trigger] tris[t], axis, position) {
            assert(!on_left(tris[hi - 1], axis, position));
        }
    }
}

/// Exchanging two triangles of a range does not change its count.
pub proof fn lemma_count_left_swap(
    before: Seq<Triangle>,
    after: Seq<Triangle>,
    lo: int,
    i: int,
    j: int,
    hi: int,
    axis: Axis,
    position: Scalar,
)
    requires
        0 <= lo <= i < j < hi <= before.len(),
        after == before.update(i, before[j]).update(j, before[i]),
    ensures
        count_left(after, lo, hi, axis, position) == count_left(before, lo, hi, axis, position),
{
    lemma_count_left_split(before, lo, i, hi, axis, position);
    lemma_count_left_split(before, i, i + 1, hi, axis, position);
    lemma_count_left_split(before, i + 1, j, hi, axis, position);
    lemma_count_left_split(before, j, j + 1, hi, axis, position);
    lemma_count_left_split(after, lo, i, hi, axis, position);
    lemma_count_left_split(after, i, i + 1, hi, axis, position);
    lemma_count_left_split(after, i + 1, j, hi, axis, position);
    lemma_count_left_split(after, j, j + 1, hi, axis, position);
    lemma_count_left_same(before, after, lo, i, axis, position);
    lemma_count_left_same(before, after, i + 1, j, axis, position);
    lemma_count_left_same(before, after, j + 1, hi, axis, position);
    assert(count_left(before, i, i + 1, axis, position) == count_left(after, j, j + 1, axis, position)) by {
        assert(count_left(before, i, i, axis, position) == 0);
        assert(count_left(after, j, j, axis, position) == 0);
    }
    assert(count_left(before, j, j + 1, axis, position) == count_left(after, i, i + 1, axis, position)) by {
        assert(count_left(before, j, j, axis, position) == 0);
        assert(count_left(after, i, i, axis, position) == 0);
    }
}

/// Moves the triangles `first .. first + count` that are on the left of the
/// plane before the others, scanning from both ends, and returns where the
/// others begin.
pub(crate) fn partition(
    tris: &mut Vec<Triangle>,
    first: usize,
    count: usize,
    axis: Axis,
    position: Scalar,
) -> (r: (usize, Ghost<Seq<int>>, Ghost<Seq<int>>))
    requires
        first + count <= old(tris).len(),
    ensures
        first <= r.0 <= first + count,
        r.0 - first == count_left(old(tris)@, first as int, first + count, axis, position),
        shuffled(old(tris)@, final(tris)@, first as int, first + count, r.1@, r.2@),
        forall|t: int| first <= t < r.0 ==> on_left(#[trigger] final(tris)@[t], axis, position),
        forall|t: int|
            r.0 <= t < first + count ==> !on_left(#[trigger] final(tris)@[t], axis, position),
{
    let ghost before = tris@;
    let ghost mut fwd = Seq::new(tris.len() as nat, |t: int| t);
    let ghost mut bwd = Seq::new(tris.len() as nat, |t: int| t);
    let mut i: usize = first;
    let mut end: usize = first + count;
    while i < end
        invariant
            first <= i <= end <= first + count,
            first + count <= tris.len(),
            shuffled(before, tris@, first as int, first + count, fwd, bwd),
            count_left(tris@, first as int, first + count, axis, position) == count_left(
                before,
                first as int,
                first + count,
                axis,
                position,
            ),
            forall|t: int| first <= t < i ==> on_left(#[trigger] tris@[t], axis, position),
            forall|t: int| end <= t < first + count ==> !on_left(#[trigger] tris@[t], axis, position),
        decreases end - i,
    {
        let here: Triangle = tris[i];
        if here.centroid.along(axis).less_than(position) {
            i += 1;
        } else {
            end -= 1;
            let there: Triangle = tris[end];
            let ghost prev = tris@;
            let ghost f = fwd;
            let ghost b = bwd;
            tris[i] = there;
            tris[end] = here;
            proof {
                fwd = f.update(i as int, f[end as int]).update(end as int, f[i as int]);
                bwd = b.update(f[end as int], i as int).update(f[i as int], end as int);
                assert(tris@ =~= prev.update(i as int, there).update(end as int, here));
                if i < end {
                    lemma_count_left_swap(
                        prev,
                        tris@,
                        first as int,
                        i as int,
                        end as int,
                        first + count,
                        axis,
                        position,
                    );
                } else {
                    assert(tris@ =~= prev);
                }
                assert forall|t: int| 0 <= t < before.len() implies {
                    &&& 0 <= #[trigger] fwd[t] < before.len()
                    &&& first <= t < first + count ==> first <= fwd[t] < first + count
                    &&& !(first <= t < first + count) ==> fwd[t] == t
                    &&& tris@[t] == before[fwd[t]]
                    &&& bwd[fwd[t]] == t
                } by {
                    assert(0 <= f[t] < before.len());
                    assert(b[f[t]] == t);
                    assert(b[f[i as int]] == i);
                    assert(b[f[end as int]] == end);
                }
                assert forall|t: int| 0 <= t < before.len() implies {
                    &&& 0 <= #[trigger] bwd[t] < before.len()
                    &&& first <= t < first + count ==> first <= bwd[t] < first + count
                    &&& !(first <= t < first + count) ==> bwd[t] == t
                    &&& fwd[bwd[t]] == t
                } by {
                    assert(0 <= b[t] < before.len());
                    assert(f[b[t]] == t);
                    assert(b[f[i as int]] == i);
                    assert(b[f[end as int]] == end);
                }
            }
        }
    }
    proof {
        lemma_count_left_split(tris@, first as int, i as int, first + count, axis, position);
        lemma_count_left_bounds(tris@, first as int, i as int, axis, position);
        lemma_count_left_bounds(tris@, i as int, first + count, axis, position);
    }
    (i, Ghost(fwd), Ghost(bwd))
}

} // verus!
