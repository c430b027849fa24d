//! Triples of single-precision values.

use vstd::prelude::*;
use crate::scalar::{Scalar, ZERO_BITS};

verus! {

/// One of the three coordinate axes.
#[derive(Clone, Copy, Debug, PartialEq, Eq, Structural)]
pub enum Axis {
    X,
    Y,
    Z,
}

impl Axis {
    /// The position of the axis in a triple: 0, 1 or 2.
    pub open spec fn ix(self) -> int {
        match self {
            Axis::X => 0,
            Axis::Y => 1,
            Axis::Z => 2,
        }
    }

    /// The position of the axis in a triple: 0, 1 or 2.
    pub fn index(self) -> (r: usize)
        ensures
            r == self.ix(),
            r < 3,
    {
        match self {
            Axis::X => 0,
            Axis::Y => 1,
            Axis::Z => 2,
        }
    }

    /// The axis at position `i`, if `i` is 0, 1 or 2.
    pub fn from_index(i: usize) -> (r: Option<Axis>)
        ensures
            i < 3 <==> r.is_some(),
            r.is_some() ==> r.unwrap().ix() == i,
    {
        if i == 0 {
            Some(Axis::X)
        } else if i == 1 {
            Some(Axis::Y)
        } else if i == 2 {
            Some(Axis::Z)
        } else {
            None
        }
    }
}

/// A point, direction or colour: three values, indexed by axis.
#[derive(Clone, Copy, Debug)]
pub struct Vec3f {
    pub data: [Scalar; 3],
}

impl Vec3f {
    /// The triple of `x`, `y` and `z`.
    pub fn new(x: Scalar, y: Scalar, z: Scalar) -> (r: Vec3f)
        ensures
            r.data@ == seq![x, y, z],
    {
        Vec3f { data: [x, y, z] }
    }

    /// The component on `axis`.
    pub fn along(&self, axis: Axis) -> (r: Scalar)
        ensures
            r == self.data[axis.ix()],
    {
        self.data[axis.index()]
    }

    /// The component-wise smaller values; see [`Scalar::min_of`].
    pub fn min(a: Vec3f, b: Vec3f) -> (r: Vec3f)
        ensures
            forall|i: int| 0 <= i < 3 ==> r.data[i] == a.data[i].min_of(b.data[i]),
    {
        Vec3f {
            data: [
                a.data[0].min(b.data[0]),
                a.data[1].min(b.data[1]),
                a.data[2].min(b.data[2]),
            ],
        }
    }

    /// The component-wise larger values; see [`Scalar::max_of`].
    pub fn max(a: Vec3f, b: Vec3f) -> (r: Vec3f)
        ensures
            forall|i: int| 0 <= i < 3 ==> r.data[i] == a.data[i].max_of(b.data[i]),
    {
        Vec3f {
            data: [
                a.data[0].max(b.data[0]),
                a.data[1].max(b.data[1]),
                a.data[2].max(b.data[2]),
            ],
        }
    }

    /// Every component with its sign bit cleared.
    pub fn abs(self) -> (r: Vec3f)
        ensures
            forall|i: int|
                0 <= i < 3 ==> !r.data[i].negative() && r.data[i].magnitude()
                    == self.data[i].magnitude(),
    {
        Vec3f { data: [self.data[0].abs(), self.data[1].abs(), self.data[2].abs()] }
    }

    /// The triple with the sign bit of every component flipped.
    pub open spec fn flipped(self) -> Vec3f {
        Vec3f { data: [self.data[0].flipped(), self.data[1].flipped(), self.data[2].flipped()] }
    }

    /// Every component with its sign bit flipped.
    pub fn reversed(self) -> (r: Vec3f)
        ensures
            r == self.flipped(),
    {
        Vec3f {
            data: [self.data[0].reversed(), self.data[1].reversed(), self.data[2].reversed()],
        }
    }
}

impl From<Scalar> for Vec3f {
    /// The triple that holds `value` three times.
    fn from(value: Scalar) -> (r: Vec3f) {
        Vec3f { data: [value, value, value] }
    }
}

impl vstd::std_specs::convert::FromSpecImpl<Scalar> for Vec3f {
    open spec fn obeys_from_spec() -> bool {
        true
    }

    open spec fn from_spec(value: Scalar) -> Vec3f {
        Vec3f { data: [value, value, value] }
    }
}

impl From<[Scalar; 3]> for Vec3f {
    /// The triple with the given components.
    fn from(value: [Scalar; 3]) -> (r: Vec3f) {
        Vec3f { data: value }
    }
}

impl vstd::std_specs::convert::FromSpecImpl<[Scalar; 3]> for Vec3f {
    open spec fn obeys_from_spec() -> bool {
        true
    }

    open spec fn from_spec(value: [Scalar; 3]) -> Vec3f {
        Vec3f { data: value }
    }
}

impl Default for Vec3f {
    /// The triple of three zeros.
    fn default() -> (r: Vec3f)
        ensures
            forall|i: int| 0 <= i < 3 ==> (#[trigger] r.data[i]).bits == ZERO_BITS,
    {
        let zero: Scalar = Scalar { bits: ZERO_BITS };
        Vec3f { data: [zero, zero, zero] }
    }
}

/// Picks components of a triple by name: `x`, `y` and `z` are the first,
/// second and third component, and a name of two or three letters gives the
/// named components in the order of the letters.
pub trait Vec3Swizzles<T> {
    /// Component `i` of the triple, counted from 0.
    spec fn part(&self, i: int) -> T;

    fn x(&self) -> (r: T)
        ensures
            r == self.part(0),
    ;

    fn y(&self) -> (r: T)
        ensures
            r == self.part(1),
    ;

    fn z(&self) -> (r: T)
        ensures
            r == self.part(2),
    ;

    fn xx(&self) -> (r: [T; 2])
        ensures
            r@ == seq![self.part(0), self.part(0)],
    ;

    fn xy(&self) -> (r: [T; 2])
        ensures
            r@ == seq![self.part(0), self.part(1)],
    ;

    fn xz(&self) -> (r: [T; 2])
        ensures
            r@ == seq![self.part(0), self.part(2)],
    ;

    fn yx(&self) -> (r: [T; 2])
        ensures
            r@ == seq![self.part(1), self.part(0)],
    ;

    fn yy(&self) -> (r: [T; 2])
        ensures
            r@ == seq![self.part(1), self.part(1)],
    ;

    fn yz(&self) -> (r: [T; 2])
        ensures
            r@ == seq![self.part(1), self.part(2)],
    ;

    fn zx(&self) -> (r: [T; 2])
        ensures
            r@ == seq![self.part(2), self.part(0)],
    ;

    fn zy(&self) -> (r: [T; 2])
        ensures
            r@ == seq![self.part(2), self.part(1)],
    ;

    fn zz(&self) -> (r: [T; 2])
        ensures
            r@ == seq![self.part(2), self.part(2)],
    ;

    fn xxx(&self) -> (r: [T; 3])
        ensures
            r@ == seq![self.part(0), self.part(0), self.part(0)],
    ;

    fn xxy(&self) -> (r: [T; 3])
        ensures
            r@ == seq![self.part(0), self.part(0), self.part(1)],
    ;

    fn xxz(&self) -> (r: [T; 3])
        ensures
            r@ == seq![self.part(0), self.part(0), self.part(2)],
    ;

    fn yxx(&self) -> (r: [T; 3])
        ensures
            r@ == seq![self.part(1), self.part(0), self.part(0)],
    ;

    fn yxy(&self) -> (r: [T; 3])
        ensures
            r@ == seq![self.part(1), self.part(0), self.part(1)],
    ;

    fn yxz(&self) -> (r: [T; 3])
        ensures
            r@ == seq![self.part(1), self.part(0), self.part(2)],
    ;

    fn zxx(&self) -> (r: [T; 3])
        ensures
            r@ == seq![self.part(2), self.part(0), self.part(0)],
    ;

    fn zxy(&self) -> (r: [T; 3])
        ensures
            r@ == seq![self.part(2), self.part(0), self.part(1)],
    ;

    fn zxz(&self) -> (r: [T; 3])
        ensures
            r@ == seq![self.part(2), self.part(0), self.part(2)],
    ;

    fn xyx(&self) -> (r: [T; 3])
        ensures
            r@ == seq![self.part(0), self.part(1), self.part(0)],
    ;

    fn xyy(&self) -> (r: [T; 3])
        ensures
            r@ == seq![self.part(0), self.part(1), self.part(1)],
    ;

    fn xyz(&self) -> (r: [T; 3])
        ensures
            r@ == seq![self.part(0), self.part(1), self.part(2)],
    ;

    fn yyx(&self) -> (r: [T; 3])
        ensures
            r@ == seq![self.part(1), self.part(1), self.part(0)],
    ;

    fn yyy(&self) -> (r: [T; 3])
        ensures
            r@ == seq![self.part(1), self.part(1), self.part(1)],
    ;

    fn yyz(&self) -> (r: [T; 3])
        ensures
            r@ == seq![self.part(1), self.part(1), self.part(2)],
    ;

    fn zyx(&self) -> (r: [T; 3])
        ensures
            r@ == seq![self.part(2), self.part(1), self.part(0)],
    ;

    fn zyy(&self) -> (r: [T; 3])
        ensures
            r@ == seq![self.part(2), self.part(1), self.part(1)],
    ;

    fn zyz(&self) -> (r: [T; 3])
        ensures
            r@ == seq![self.part(2), self.part(1), self.part(2)],
    ;

    fn xzx(&self) -> (r: [T; 3])
        ensures
            r@ == seq![self.part(0), self.part(2), self.part(0)],
    ;

    fn xzy(&self) -> (r: [T; 3])
        ensures
            r@ == seq![self.part(0), self.part(2), self.part(1)],
    ;

    fn xzz(&self) -> (r: [T; 3])
        ensures
            r@ == seq![self.part(0), self.part(2), self.part(2)],
    ;

    fn yzx(&self) -> (r: [T; 3])
        ensures
            r@ == seq![self.part(1), self.part(2), self.part(0)],
    ;

    fn yzy(&self) -> (r: [T; 3])
        ensures
            r@ == seq![self.part(1), self.part(2), self.part(1)],
    ;

    fn yzz(&self) -> (r: [T; 3])
        ensures
            r@ == seq![self.part(1), self.part(2), self.part(2)],
    ;

    fn zzx(&self) -> (r: [T; 3])
        ensures
            r@ == seq![self.part(2), self.part(2), self.part(0)],
    ;

    fn zzy(&self) -> (r: [T; 3])
        ensures
            r@ == seq![self.part(2), self.part(2), self.part(1)],
    ;

    fn zzz(&self) -> (r: [T; 3])
        ensures
            r@ == seq![self.part(2), self.part(2), self.part(2)],
    ;
}

impl Vec3Swizzles<Scalar> for Vec3f {
    open spec fn part(&self, i: int) -> Scalar {
        self.data[i]
    }

    fn x(&self) -> (r: Scalar) {
        self.data[0]
    }

    fn y(&self) -> (r: Scalar) {
        self.data[1]
    }

    fn z(&self) -> (r: Scalar) {
        self.data[2]
    }

    fn xx(&self) -> (r: [Scalar; 2]) {
        let r: [Scalar; 2] = [self.data[0], self.data[0]];
        assert(r@ =~= seq![self.part(0), self.part(0)]);
        r
    }

    fn xy(&self) -> (r: [Scalar; 2]) {
        let r: [Scalar; 2] = [self.data[0], self.data[1]];
        assert(r@ =~= seq![self.part(0), self.part(1)]);
        r
    }

    fn xz(&self) -> (r: [Scalar; 2]) {
        let r: [Scalar; 2] = [self.data[0], self.data[2]];
        assert(r@ =~= seq![self.part(0), self.part(2)]);
        r
    }

    fn yx(&self) -> (r: [Scalar; 2]) {
        let r: [Scalar; 2] = [self.data[1], self.data[0]];
        assert(r@ =~= seq![self.part(1), self.part(0)]);
        r
    }

    fn yy(&self) -> (r: [Scalar; 2]) {
        let r: [Scalar; 2] = [self.data[1], self.data[1]];
        assert(r@ =~= seq![self.part(1), self.part(1)]);
        r
    }

    fn yz(&self) -> (r: [Scalar; 2]) {
        let r: [Scalar; 2] = [self.data[1], self.data[2]];
        assert(r@ =~= seq![self.part(1), self.part(2)]);
        r
    }

    fn zx(&self) -> (r: [Scalar; 2]) {
        let r: [Scalar; 2] = [self.data[2], self.data[0]];
        assert(r@ =~= seq![self.part(2), self.part(0)]);
        r
    }

    fn zy(&self) -> (r: [Scalar; 2]) {
        let r: [Scalar; 2] = [self.data[2], self.data[1]];
        assert(r@ =~= seq![self.part(2), self.part(1)]);
        r
    }

    fn zz(&self) -> (r: [Scalar; 2]) {
        let r: [Scalar; 2] = [self.data[2], self.data[2]];
        assert(r@ =~= seq![self.part(2), self.part(2)]);
        r
    }

    fn xxx(&self) -> (r: [Scalar; 3]) {
        let r: [Scalar; 3] = [self.data[0], self.data[0], self.data[0]];
        assert(r@ =~= seq![self.part(0), self.part(0), self.part(0)]);
        r
    }

    fn xxy(&self) -> (r: [Scalar; 3]) {
        let r: [Scalar; 3] = [self.data[0], self.data[0], self.data[1]];
        assert(r@ =~= seq![self.part(0), self.part(0), self.part(1)]);
        r
    }

    fn xxz(&self) -> (r: [Scalar; 3]) {
        let r: [Scalar; 3] = [self.data[0], self.data[0], self.data[2]];
        assert(r@ =~= seq![self.part(0), self.part(0), self.part(2)]);
        r
    }

    fn yxx(&self) -> (r: [Scalar; 3]) {
        let r: [Scalar; 3] = [self.data[1], self.data[0], self.data[0]];
        assert(r@ =~= seq![self.part(1), self.part(0), self.part(0)]);
        r
    }

    fn yxy(&self) -> (r: [Scalar; 3]) {
        let r: [Scalar; 3] = [self.data[1], self.data[0], self.data[1]];
        assert(r@ =~= seq![self.part(1), self.part(0), self.part(1)]);
        r
    }

    fn yxz(&self) -> (r: [Scalar; 3]) {
        let r: [Scalar; 3] = [self.data[1], self.data[0], self.data[2]];
        assert(r@ =~= seq![self.part(1), self.part(0), self.part(2)]);
        r
    }

    fn zxx(&self) -> (r: [Scalar; 3]) {
        let r: [Scalar; 3] = [self.data[2], self.data[0], self.data[0]];
        assert(r@ =~= seq![self.part(2), self.part(0), self.part(0)]);
        r
    }

    fn zxy(&self) -> (r: [Scalar; 3]) {
        let r: [Scalar; 3] = [self.data[2], self.data[0], self.data[1]];
        assert(r@ =~= seq![self.part(2), self.part(0), self.part(1)]);
        r
    }

    fn zxz(&self) -> (r: [Scalar; 3]) {
        let r: [Scalar; 3] = [self.data[2], self.data[0], self.data[2]];
        assert(r@ =~= seq![self.part(2), self.part(0), self.part(2)]);
        r
    }

    fn xyx(&self) -> (r: [Scalar; 3]) {
        let r: [Scalar; 3] = [self.data[0], self.data[1], self.data[0]];
        assert(r@ =~= seq![self.part(0), self.part(1), self.part(0)]);
        r
    }

    fn xyy(&self) -> (r: [Scalar; 3]) {
        let r: [Scalar; 3] = [self.data[0], self.data[1], self.data[1]];
        assert(r@ =~= seq![self.part(0), self.part(1), self.part(1)]);
        r
    }

    fn xyz(&self) -> (r: [Scalar; 3]) {
        let r: [Scalar; 3] = [self.data[0], self.data[1], self.data[2]];
        assert(r@ =~= seq![self.part(0), self.part(1), self.part(2)]);
        r
    }

    fn yyx(&self) -> (r: [Scalar; 3]) {
        let r: [Scalar; 3] = [self.data[1], self.data[1], self.data[0]];
        assert(r@ =~= seq![self.part(1), self.part(1), self.part(0)]);
        r
    }

    fn yyy(&self) -> (r: [Scalar; 3]) {
        let r: [Scalar; 3] = [self.data[1], self.data[1], self.data[1]];
        assert(r@ =~= seq![self.part(1), self.part(1), self.part(1)]);
        r
    }

    fn yyz(&self) -> (r: [Scalar; 3]) {
        let r: [Scalar; 3] = [self.data[1], self.data[1], self.data[2]];
        assert(r@ =~= seq![self.part(1), self.part(1), self.part(2)]);
        r
    }

    fn zyx(&self) -> (r: [Scalar; 3]) {
        let r: [Scalar; 3] = [self.data[2], self.data[1], self.data[0]];
        assert(r@ =~= seq![self.part(2), self.part(1), self.part(0)]);
        r
    }

    fn zyy(&self) -> (r: [Scalar; 3]) {
        let r: [Scalar; 3] = [self.data[2], self.data[1], self.data[1]];
        assert(r@ =~= seq![self.part(2), self.part(1), self.part(1)]);
        r
    }

    fn zyz(&self) -> (r: [Scalar; 3]) {
        let r: [Scalar; 3] = [self.data[2], self.data[1], self.data[2]];
        assert(r@ =~= seq![self.part(2), self.part(1), self.part(2)]);
        r
    }

    fn xzx(&self) -> (r: [Scalar; 3]) {
        let r: [Scalar; 3] = [self.data[0], self.data[2], self.data[0]];
        assert(r@ =~= seq![self.part(0), self.part(2), self.part(0)]);
        r
    }

    fn xzy(&self) -> (r: [Scalar; 3]) {
        let r: [Scalar; 3] = [self.data[0], self.data[2], self.data[1]];
        assert(r@ =~= seq![self.part(0), self.part(2), self.part(1)]);
        r
    }

    fn xzz(&self) -> (r: [Scalar; 3]) {
        let r: [Scalar; 3] = [self.data[0], self.data[2], self.data[2]];
        assert(r@ =~= seq![self.part(0), self.part(2), self.part(2)]);
        r
    }

    fn yzx(&self) -> (r: [Scalar; 3]) {
        let r: [Scalar; 3] = [self.data[1], self.data[2], self.data[0]];
        assert(r@ =~= seq![self.part(1), self.part(2), self.part(0)]);
        r
    }

    fn yzy(&self) -> (r: [Scalar; 3]) {
        let r: [Scalar; 3] = [self.data[1], self.data[2], self.data[1]];
        assert(r@ =~= seq![self.part(1), self.part(2), self.part(1)]);
        r
    }

    fn yzz(&self) -> (r: [Scalar; 3]) {
        let r: [Scalar; 3] = [self.data[1], self.data[2], self.data[2]];
        assert(r@ =~= seq![self.part(1), self.part(2), self.part(2)]);
        r
    }

    fn zzx(&self) -> (r: [Scalar; 3]) {
        let r: [Scalar; 3] = [self.data[2], self.data[2], self.data[0]];
        assert(r@ =~= seq![self.part(2), self.part(2), self.part(0)]);
        r
    }

    fn zzy(&self) -> (r: [Scalar; 3]) {
        let r: [Scalar; 3] = [self.data[2], self.data[2], self.data[1]];
        assert(r@ =~= seq![self.part(2), self.part(2), self.part(1)]);
        r
    }

    fn zzz(&self) -> (r: [Scalar; 3]) {
        let r: [Scalar; 3] = [self.data[2], self.data[2], self.data[2]];
        assert(r@ =~= seq![self.part(2), self.part(2), self.part(2)]);
        r
    }
}

} // verus!
