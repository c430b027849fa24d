//! The content of a Wavefront file: buffers of vertex data, and triangles
//! that index into them.

use vstd::prelude::*;
use vstd::string::StringSliceAdditionalSpecFns;
use crate::scalar::{Scalar, ZERO_BITS};
use crate::scene::{Material, Vertex};

verus! {

/// The vertex data of a file, one buffer per kind.
pub struct VertexBuffer {
    pub positions: Vec<[Scalar; 3]>,
    pub tex_coords: Vec<[Scalar; 2]>,
    pub normals: Vec<[Scalar; 3]>,
}

/// A triangle of a file: for each corner, the index of its position, of its
/// texture coordinate and of its normal, counted from 0.
#[derive(Clone, Copy, Debug)]
pub struct Triangle {
    pub positions: [usize; 3],
    pub tex_coords: [usize; 3],
    pub normals: [usize; 3],
    pub material_id: usize,
}

/// The error of a triangle that cannot be read.
#[derive(Clone, Copy, Debug, PartialEq, Eq, Structural)]
pub struct ParseObjTriangleError;

/// The content of a file.
pub struct OBJ {
    pub tris: Vec<Triangle>,
    pub vertex_buffer: VertexBuffer,
    pub materials: Vec<Material>,
}

/// Entry `i` of a buffer of triples, or three zeros where the buffer has no
/// such entry.
pub open spec fn triple_at(buffer: Seq<[Scalar; 3]>, i: int) -> [Scalar; 3] {
    if 0 <= i < buffer.len() {
        buffer[i]
    } else {
        [Scalar { bits: ZERO_BITS }, Scalar { bits: ZERO_BITS }, Scalar { bits: ZERO_BITS }]
    }
}

/// Entry `i` of a buffer of pairs, or two zeros where the buffer has no such
/// entry.
pub open spec fn pair_at(buffer: Seq<[Scalar; 2]>, i: int) -> [Scalar; 2] {
    if 0 <= i < buffer.len() {
        buffer[i]
    } else {
        [Scalar { bits: ZERO_BITS }, Scalar { bits: ZERO_BITS }]
    }
}

impl VertexBuffer {
    /// Corner `corner` of `face`, with each index looked up in its buffer.
    pub open spec fn corner_of(self, face: Triangle, corner: int) -> Vertex {
        Vertex {
            position: triple_at(self.positions@, face.positions[corner] as int),
            normal: triple_at(self.normals@, face.normals[corner] as int),
            tex_coord: pair_at(self.tex_coords@, face.tex_coords[corner] as int),
        }
    }

    /// Looks up the data of one corner of a triangle. An index without an
    /// entry gives zeros.
    pub fn corner(&self, face: &Triangle, corner: usize) -> (r: Vertex)
        requires
            corner < 3,
        ensures
            r == self.corner_of(*face, corner as int),
    {
        let zero: Scalar = Scalar { bits: ZERO_BITS };
        let p: usize = face.positions[corner];
        let n: usize = face.normals[corner];
        let t: usize = face.tex_coords[corner];
        Vertex {
            position: if p < self.positions.len() {
                self.positions[p]
            } else {
                [zero, zero, zero]
            },
            normal: if n < self.normals.len() {
                self.normals[n]
            } else {
                [zero, zero, zero]
            },
            tex_coord: if t < self.tex_coords.len() {
                self.tex_coords[t]
            } else {
                [zero, zero]
            },
        }
    }

    /// The three corners of a triangle.
    pub fn corners(&self, face: &Triangle) -> (r: [Vertex; 3])
        ensures
            forall|c: int| 0 <= c < 3 ==> r[c] == #[trigger] self.corner_of(*face, c),
    {
        [self.corner(face, 0), self.corner(face, 1), self.corner(face, 2)]
    }
}

/// Whether a byte is white space: a blank, or one of the control characters
/// from the tab to the carriage return.
pub open spec fn is_space(b: u8) -> bool {
    b == 32 || (9 <= b <= 13)
}

/// Whether a byte is a decimal digit.
pub open spec fn is_digit(b: u8) -> bool {
    48 <= b <= 57
}

/// The first index at or after `i` that does not hold white space.
pub open spec fn skip_spaces(s: Seq<u8>, i: int) -> int
    decreases s.len() - i,
{
    if 0 <= i < s.len() && is_space(s[i]) {
        skip_spaces(s, i + 1)
    } else {
        i
    }
}

/// The first index at or after `i` that holds white space, or the length.
pub open spec fn token_end(s: Seq<u8>, i: int) -> int
    decreases s.len() - i,
{
    if 0 <= i < s.len() && !is_space(s[i]) {
        token_end(s, i + 1)
    } else {
        i
    }
}

/// The first index at or after `i` that holds a slash, or the length.
pub open spec fn slash_at(s: Seq<u8>, i: int) -> int
    decreases s.len() - i,
{
    if 0 <= i < s.len() && s[i] != 47 {
        slash_at(s, i + 1)
    } else {
        i
    }
}

/// The number that a run of decimal digits writes.
pub open spec fn number(s: Seq<u8>) -> nat
    decreases s.len(),
{
    if s.len() == 0 {
        0
    } else {
        number(s.drop_last()) * 10 + (s.last() - 48) as nat
    }
}

/// Whether every byte of a run is a decimal digit.
pub open spec fn all_digits(s: Seq<u8>) -> bool {
    forall|i: int| 0 <= i < s.len() ==> is_digit(#[trigger] s[i])
}

/// The index that a field of a corner names: the field is a run of digits
/// that writes a number from 1 up to the largest index of the machine, and
/// the index is one less, for files count from 1.
pub open spec fn index_of(field: Seq<u8>) -> Option<usize> {
    if field.len() > 0 && all_digits(field) && 1 <= number(field) <= usize::MAX {
        Some((number(field) - 1) as usize)
    } else {
        None
    }
}

/// The indices of one corner: of its position, and of its texture
/// coordinate and its normal where the corner names them.
pub struct Corner {
    pub position: usize,
    pub tex_coord: Option<usize>,
    pub normal: Option<usize>,
}

/// What a corner of a triangle says. A corner is written `p`, `p/t`,
/// `p/t/n` or `p//n`, each letter a number from 1.
pub open spec fn parse_corner(token: Seq<u8>) -> Option<Corner> {
    let first = slash_at(token, 0);
    let second = slash_at(token, first + 1);
    if first >= token.len() {
        match index_of(token) {
            Some(position) => Some(Corner { position, tex_coord: None, normal: None }),
            None => None,
        }
    } else if second >= token.len() {
        match (index_of(token.subrange(0, first)), index_of(token.subrange(first + 1, token.len() as int))) {
            (Some(position), Some(t)) => Some(Corner { position, tex_coord: Some(t), normal: None }),
            _ => None,
        }
    } else {
        let middle = token.subrange(first + 1, second);
        match (
            index_of(token.subrange(0, first)),
            index_of(token.subrange(second + 1, token.len() as int)),
        ) {
            (Some(position), Some(n)) => if middle.len() == 0 {
                Some(Corner { position, tex_coord: None, normal: Some(n) })
            } else {
                match index_of(middle) {
                    Some(t) => Some(Corner { position, tex_coord: Some(t), normal: Some(n) }),
                    None => None,
                }
            },
            _ => None,
        }
    }
}

impl Triangle {
    /// The triangle without corners: every index is 0.
    pub open spec fn blank() -> Triangle {
        Triangle { positions: [0, 0, 0], tex_coords: [0, 0, 0], normals: [0, 0, 0], material_id: 0 }
    }

    /// The triangle with corner `k` set to what `corner` says. An index
    /// that the corner does not name stays as it is.
    pub open spec fn with(self, k: int, corner: Corner) -> Triangle {
        Triangle {
            positions: array_set(self.positions, k, corner.position),
            tex_coords: match corner.tex_coord {
                Some(t) => array_set(self.tex_coords, k, t),
                None => self.tex_coords,
            },
            normals: match corner.normal {
                Some(n) => array_set(self.normals, k, n),
                None => self.normals,
            },
            material_id: self.material_id,
        }
    }
}

/// The array `a` with entry `k` set to `value`.
pub open spec fn array_set(a: [usize; 3], k: int, value: usize) -> [usize; 3] {
    if k == 0 {
        [value, a[1], a[2]]
    } else if k == 1 {
        [a[0], value, a[2]]
    } else {
        [a[0], a[1], value]
    }
}

/// What the rest of a line from index `i` says, where `k` corners have been
/// read into `so_far`: the corners that follow, separated by white space,
/// fill the triangle in turn, and a fourth corner or a corner that cannot be
/// read spoils the line.
pub open spec fn parse_from(s: Seq<u8>, i: int, k: nat, so_far: Triangle) -> Option<Triangle>
    decreases s.len() - i,
{
    let start = skip_spaces(s, i);
    let end = token_end(s, start);
    if start >= s.len() || i < 0 {
        Some(so_far)
    } else if k >= 3 {
        None
    } else {
        match parse_corner(s.subrange(start, end)) {
            None => None,
            Some(corner) => {
                if i < end <= s.len() {
                    parse_from(s, end, k + 1, so_far.with(k as int, corner))
                } else {
                    None
                }
            },
        }
    }
}

/// What a line of up to three corners says.
pub open spec fn parse_face(s: Seq<u8>) -> Option<Triangle> {
    parse_from(s, 0, 0, Triangle::blank())
}

proof fn lemma_token_end(s: Seq<u8>, i: int)
    requires
        0 <= i <= s.len(),
    ensures
        i <= token_end(s, i) <= s.len(),
        i < s.len() && !is_space(s[i]) ==> i < token_end(s, i),
    decreases s.len() - i,
{
    if i < s.len() && !is_space(s[i]) {
        lemma_token_end(s, i + 1);
    }
}

/// A run of digits writes no smaller a number than any run it starts with.
proof fn lemma_number_grows(s: Seq<u8>, k: int)
    requires
        0 <= k <= s.len(),
        all_digits(s),
    ensures
        number(s.subrange(0, k)) <= number(s),
    decreases s.len(),
{
    if k < s.len() {
        lemma_number_grows(s.drop_last(), k);
        assert(s.drop_last().subrange(0, k) =~= s.subrange(0, k));
    } else {
        assert(s.subrange(0, k) =~= s);
    }
}

fn find_space_end(bytes: &[u8], from: usize) -> (r: usize)
    requires
        from <= bytes.len(),
    ensures
        r == skip_spaces(bytes@, from as int),
        from <= r <= bytes.len(),
{
    let mut i: usize = from;
    while i < bytes.len() && (bytes[i] == 32 || (9 <= bytes[i] && bytes[i] <= 13))
        invariant
            from <= i <= bytes.len(),
            skip_spaces(bytes@, from as int) == skip_spaces(bytes@, i as int),
        decreases bytes.len() - i,
    {
        i += 1;
    }
    i
}

fn find_token_end(bytes: &[u8], from: usize) -> (r: usize)
    requires
        from <= bytes.len(),
    ensures
        r == token_end(bytes@, from as int),
        from <= r <= bytes.len(),
{
    let mut i: usize = from;
    while i < bytes.len() && !(bytes[i] == 32 || (9 <= bytes[i] && bytes[i] <= 13))
        invariant
            from <= i <= bytes.len(),
            token_end(bytes@, from as int) == token_end(bytes@, i as int),
        decreases bytes.len() - i,
    {
        i += 1;
    }
    i
}

/// The first slash in `from .. to`, or `to`; as a place in the token
/// `start .. to`.
fn find_slash(bytes: &[u8], start: usize, from: usize, to: usize) -> (r: usize)
    requires
        start <= from <= to <= bytes.len(),
    ensures
        r - start == slash_at(bytes@.subrange(start as int, to as int), from - start),
        from <= r <= to,
{
    let ghost token = bytes@.subrange(start as int, to as int);
    let mut i: usize = from;
    while i < to && bytes[i] != 47
        invariant
            start <= from <= i <= to <= bytes.len(),
            token == bytes@.subrange(start as int, to as int),
            slash_at(token, from - start) == slash_at(token, i - start),
        decreases to - i,
    {
        assert(token[i - start] == bytes@[i as int]);
        i += 1;
    }
    proof {
        if i < to {
            assert(token[i - start] == bytes@[i as int]);
        }
    }
    i
}

/// Reads the index that the field `from .. to` names.
fn read_index(bytes: &[u8], from: usize, to: usize) -> (r: Option<usize>)
    requires
        from <= to <= bytes.len(),
    ensures
        r == index_of(bytes@.subrange(from as int, to as int)),
{
    let ghost field = bytes@.subrange(from as int, to as int);
    if from == to {
        return None;
    }
    let mut value: usize = 0;
    let mut i: usize = from;
    while i < to
        invariant
            from <= i <= to <= bytes.len(),
            field == bytes@.subrange(from as int, to as int),
            all_digits(field.subrange(0, i - from)),
            value == number(field.subrange(0, i - from)),
        decreases to - i,
    {
        let b: u8 = bytes[i];
        let ghost seen = field.subrange(0, i - from);
        let ghost more = field.subrange(0, i - from + 1);
        proof {
            assert(field[i - from] == b);
            assert(more.drop_last() =~= seen);
            assert(more.last() == b);
        }
        if b < 48 || b > 57 {
            proof {
                assert(!is_digit(field[i - from]));
            }
            return None;
        }
        let digit: usize = (b - 48) as usize;
        let grown: Option<usize> = match value.checked_mul(10) {
            Some(tens) => tens.checked_add(digit),
            None => None,
        };
        proof {
            assert forall|j: int| 0 <= j < more.len() implies is_digit(#[trigger] more[j]) by {
                if j < seen.len() {
                    assert(more[j] == seen[j]);
                }
            }
        }
        match grown {
            Some(v) => {
                value = v;
            },
            None => {
                proof {
                    assert(number(more) > usize::MAX);
                    if all_digits(field) {
                        lemma_number_grows(field, i - from + 1);
                    }
                }
                return None;
            },
        }
        i += 1;
    }
    proof {
        assert(field.subrange(0, to - from) =~= field);
    }
    if value == 0 {
        None
    } else {
        Some(value - 1)
    }
}

/// Reads the corner `from .. to`.
fn read_corner(bytes: &[u8], from: usize, to: usize) -> (r: Option<Corner>)
    requires
        from <= to <= bytes.len(),
    ensures
        r == parse_corner(bytes@.subrange(from as int, to as int)),
{
    let ghost token = bytes@.subrange(from as int, to as int);
    let first: usize = find_slash(bytes, from, from, to);
    if first >= to {
        return match read_index(bytes, from, to) {
            Some(position) => Some(Corner { position, tex_coord: None, normal: None }),
            None => None,
        };
    }
    let second: usize = find_slash(bytes, from, first + 1, to);
    proof {
        assert(token.subrange(0, first - from) =~= bytes@.subrange(from as int, first as int));
        assert(token.subrange(first - from + 1, token.len() as int) =~= bytes@.subrange(
            first + 1,
            to as int,
        ));
        assert(token.subrange(first - from + 1, second - from) =~= bytes@.subrange(
            first + 1,
            second as int,
        ));
        if second < to {
            assert(token.subrange(second - from + 1, token.len() as int) =~= bytes@.subrange(
                second + 1,
                to as int,
            ));
        }
    }
    let position: Option<usize> = read_index(bytes, from, first);
    if second >= to {
        let tex: Option<usize> = read_index(bytes, first + 1, to);
        return match (position, tex) {
            (Some(position), Some(t)) => Some(Corner { position, tex_coord: Some(t), normal: None }),
            _ => None,
        };
    }
    let normal: Option<usize> = read_index(bytes, second + 1, to);
    match (position, normal) {
        (Some(position), Some(n)) => {
            if second == first + 1 {
                Some(Corner { position, tex_coord: None, normal: Some(n) })
            } else {
                match read_index(bytes, first + 1, second) {
                    Some(t) => Some(Corner { position, tex_coord: Some(t), normal: Some(n) }),
                    None => None,
                }
            }
        },
        _ => None,
    }
}

impl Triangle {
    /// Reads a triangle from the corners of a line of a file, written
    /// `p`, `p/t`, `p/t/n` or `p//n` and separated by white space. Corners
    /// that the line does not hold keep the index 0. A line with more than
    /// three corners, or with a corner that is not written in one of these
    /// ways with numbers from 1, is an error.
    pub fn from_str(s: &str) -> (r: Result<Triangle, ParseObjTriangleError>)
        ensures
            r.is_ok() <==> parse_face(s.spec_bytes()).is_some(),
            r.is_ok() ==> r.unwrap() == parse_face(s.spec_bytes()).unwrap(),
    {
        let bytes: &[u8] = s.as_bytes();
        let mut triangle = Triangle {
            positions: [0, 0, 0],
            tex_coords: [0, 0, 0],
            normals: [0, 0, 0],
            material_id: 0,
        };
        let mut k: usize = 0;
        let mut i: usize = 0;
        loop
            invariant
                i <= bytes.len(),
                k <= 3,
                bytes@ == s.spec_bytes(),
                parse_face(bytes@) == parse_from(bytes@, i as int, k as nat, triangle),
            decreases bytes.len() - i,
        {
            let start: usize = find_space_end(bytes, i);
            if start >= bytes.len() {
                return Ok(triangle);
            }
            if k >= 3 {
                return Err(ParseObjTriangleError);
            }
            let end: usize = find_token_end(bytes, start);
            proof {
                lemma_token_end(bytes@, start as int);
            }
            match read_corner(bytes, start, end) {
                None => {
                    return Err(ParseObjTriangleError);
                },
                Some(corner) => {
                    let ghost before = triangle;
                    triangle.positions[k] = corner.position;
                    match corner.tex_coord {
                        Some(t) => {
                            triangle.tex_coords[k] = t;
                        },
                        None => {},
                    }
                    match corner.normal {
                        Some(n) => {
                            triangle.normals[k] = n;
                        },
                        None => {},
                    }
                    proof {
                        let after = before.with(k as int, corner);
                        assert(triangle.positions@ =~= after.positions@);
                        assert(triangle.tex_coords@ =~= after.tex_coords@);
                        assert(triangle.normals@ =~= after.normals@);
                        assert(triangle.positions == after.positions);
                        assert(triangle.tex_coords == after.tex_coords);
                        assert(triangle.normals == after.normals);
                        assert(triangle == after);
                    }
                },
            }
            k += 1;
            i = end;
        }
    }
}

} // verus!
