//! The lines and words of a scene file or a material library: where each
//! line and each word lies, and which statement a line makes. What a word
//! that writes a number is worth is left to the caller.

use vstd::prelude::*;
use crate::loader::obj::{skip_spaces, token_end};
use crate::scene::Material;

verus! {

/// The statement that a line makes, by its first word.
#[derive(Clone, Copy, Debug, PartialEq, Eq, Structural)]
pub enum Keyword {
    /// `v`: the position of a vertex.
    Position,
    /// `vt`: a texture coordinate.
    TexCoord,
    /// `vn`: a normal.
    Normal,
    /// `f`: a triangle.
    Face,
    /// `usemtl`: the material of the triangles that follow.
    UseMaterial,
    /// `mtllib`: the file that holds the materials.
    MaterialLib,
    /// `newmtl`: the start of a material.
    NewMaterial,
    /// `Kd`: the base colour of the material.
    BaseColor,
    /// `Ke`: the emission of the material.
    Emission,
    /// `Ni`: the index of refraction of the material.
    Ior,
    /// `Pr`: the roughness of the material.
    Roughness,
    /// `Pm`: the metallic value of the material.
    Metallic,
    /// `Tf`: the transmission of the material.
    Transmission,
    /// A word that starts with `#`: the line says nothing.
    Comment,
    /// No word at all.
    Blank,
    /// Any other word.
    Other,
}

/// The statement that a first word makes.
pub open spec fn keyword_of(word: Seq<u8>) -> Keyword {
    if word.len() == 0 {
        Keyword::Blank
    } else if word[0] == 35 {
        Keyword::Comment
    } else if word == seq![118u8] {
        Keyword::Position
    } else if word == seq![118u8, 116] {
        Keyword::TexCoord
    } else if word == seq![118u8, 110] {
        Keyword::Normal
    } else if word == seq![102u8] {
        Keyword::Face
    } else if word == seq![117u8, 115, 101, 109, 116, 108] {
        Keyword::UseMaterial
    } else if word == seq![109u8, 116, 108, 108, 105, 98] {
        Keyword::MaterialLib
    } else if word == seq![110u8, 101, 119, 109, 116, 108] {
        Keyword::NewMaterial
    } else if word == seq![75u8, 100] {
        Keyword::BaseColor
    } else if word == seq![75u8, 101] {
        Keyword::Emission
    } else if word == seq![78u8, 105] {
        Keyword::Ior
    } else if word == seq![80u8, 114] {
        Keyword::Roughness
    } else if word == seq![80u8, 109] {
        Keyword::Metallic
    } else if word == seq![84u8, 102] {
        Keyword::Transmission
    } else {
        Keyword::Other
    }
}

/// The first index at or after `i` that holds a line feed, or the length.
pub open spec fn line_end(s: Seq<u8>, i: int) -> int
    decreases s.len() - i,
{
    if 0 <= i < s.len() && s[i] != 10 {
        line_end(s, i + 1)
    } else {
        i
    }
}

/// The lines of a text from index `i` on, each as the index where it starts
/// and the index of the line feed that ends it, or of the end of the text.
/// A text that ends in a line feed has no empty last line.
pub open spec fn lines_from(s: Seq<u8>, i: int) -> Seq<(usize, usize)>
    decreases s.len() - i,
{
    let end = line_end(s, i);
    if 0 <= i < s.len() {
        if i <= end < s.len() {
            seq![(i as usize, end as usize)] + lines_from(s, end + 1)
        } else {
            seq![(i as usize, end as usize)]
        }
    } else {
        Seq::empty()
    }
}

/// The words of a line from index `i` on, each as the index where it starts
/// and the index after its last byte. Words are separated by white space.
pub open spec fn words_from(s: Seq<u8>, i: int) -> Seq<(usize, usize)>
    decreases s.len() - i,
{
    let start = skip_spaces(s, i);
    let end = token_end(s, start);
    if 0 <= i && start < s.len() && i < end <= s.len() {
        seq![(start as usize, end as usize)] + words_from(s, end)
    } else {
        Seq::empty()
    }
}

/// A line taken apart: the statement that it makes, and where its other
/// words lie.
pub struct Statement {
    pub keyword: Keyword,
    pub args: Vec<(usize, usize)>,
}

/// The statement that a line makes: that of its first word.
pub open spec fn statement_keyword(line: Seq<u8>) -> Keyword {
    let words = words_from(line, 0);
    if words.len() == 0 {
        Keyword::Blank
    } else {
        keyword_of(line.subrange(words[0].0 as int, words[0].1 as int))
    }
}

/// The words of a line after the first.
pub open spec fn statement_args(line: Seq<u8>) -> Seq<(usize, usize)> {
    let words = words_from(line, 0);
    if words.len() == 0 {
        words
    } else {
        words.skip(1)
    }
}

/// The lines of a text.
pub fn lines(text: &[u8]) -> (r: Vec<(usize, usize)>)
    ensures
        r@ == lines_from(text@, 0),
        forall|k: int| 0 <= k < r.len() ==> (#[trigger] r[k]).0 <= r[k].1 <= text.len(),
{
    let mut out: Vec<(usize, usize)> = Vec::new();
    let mut i: usize = 0;
    while i < text.len()
        invariant
            i <= text.len(),
            out@ + lines_from(text@, i as int) == lines_from(text@, 0),
            forall|k: int| 0 <= k < out.len() ==> (#[trigger] out[k]).0 <= out[k].1 <= text.len(),
        decreases text.len() - i,
    {
        let start: usize = i;
        while i < text.len() && text[i] != 10
            invariant
                start <= i <= text.len(),
                line_end(text@, start as int) == line_end(text@, i as int),
            decreases text.len() - i,
        {
            i += 1;
        }
        let ghost rest = lines_from(text@, start as int);
        proof {
            if i < text.len() {
                assert(out@.push((start, i)) + lines_from(text@, i + 1) =~= out@ + rest);
            } else {
                assert(out@.push((start, i)) + Seq::<(usize, usize)>::empty() =~= out@ + rest);
            }
        }
        out.push((start, i));
        if i < text.len() {
            i += 1;
        } else {
            proof {
                assert(out@ =~= out@ + Seq::<(usize, usize)>::empty());
            }
            return out;
        }
    }
    proof {
        assert(out@ + Seq::<(usize, usize)>::empty() =~= out@);
    }
    out
}

/// The words of a line.
pub fn words(line: &[u8]) -> (r: Vec<(usize, usize)>)
    ensures
        r@ == words_from(line@, 0),
        forall|k: int| 0 <= k < r.len() ==> (#[trigger] r[k]).0 < r[k].1 <= line.len(),
{
    let mut out: Vec<(usize, usize)> = Vec::new();
    let mut i: usize = 0;
    loop
        invariant
            i <= line.len(),
            out@ + words_from(line@, i as int) == words_from(line@, 0),
            forall|k: int| 0 <= k < out.len() ==> (#[trigger] out[k]).0 < out[k].1 <= line.len(),
        decreases line.len() - i,
    {
        let mut start: usize = i;
        while start < line.len() && (line[start] == 32 || (9 <= line[start] && line[start] <= 13))
            invariant
                i <= start <= line.len(),
                skip_spaces(line@, i as int) == skip_spaces(line@, start as int),
            decreases line.len() - start,
        {
            start += 1;
        }
        if start >= line.len() {
            proof {
                assert(out@ + Seq::<(usize, usize)>::empty() =~= out@);
            }
            return out;
        }
        let mut end: usize = start;
        while end < line.len() && !(line[end] == 32 || (9 <= line[end] && line[end] <= 13))
            invariant
                start <= end <= line.len(),
                token_end(line@, start as int) == token_end(line@, end as int),
            decreases line.len() - end,
        {
            end += 1;
        }
        proof {
            assert(out@.push((start, end)) + words_from(line@, end as int) =~= out@ + words_from(
                line@,
                i as int,
            ));
        }
        out.push((start, end));
        i = end;
    }
}

/// The statement that the word `from .. to` of a line makes.
pub fn keyword(line: &[u8], from: usize, to: usize) -> (r: Keyword)
    requires
        from <= to <= line.len(),
    ensures
        r == keyword_of(line@.subrange(from as int, to as int)),
{
    let ghost word = line@.subrange(from as int, to as int);
    let n: usize = to - from;
    if n == 0 {
        return Keyword::Blank;
    }
    let a: u8 = line[from];
    assert(word[0] == a);
    if a == 35 {
        return Keyword::Comment;
    }
    if n == 1 {
        assert(word =~= seq![a]);
        if a == 118 {
            Keyword::Position
        } else if a == 102 {
            Keyword::Face
        } else {
            Keyword::Other
        }
    } else if n == 2 {
        let b: u8 = line[from + 1];
        assert(word[1] == b);
        assert(word =~= seq![a, b]);
        if a == 118 && b == 116 {
            Keyword::TexCoord
        } else if a == 118 && b == 110 {
            Keyword::Normal
        } else if a == 75 && b == 100 {
            Keyword::BaseColor
        } else if a == 75 && b == 101 {
            Keyword::Emission
        } else if a == 78 && b == 105 {
            Keyword::Ior
        } else if a == 80 && b == 114 {
            Keyword::Roughness
        } else if a == 80 && b == 109 {
            Keyword::Metallic
        } else if a == 84 && b == 102 {
            Keyword::Transmission
        } else {
            Keyword::Other
        }
    } else if n == 6 {
        let b: u8 = line[from + 1];
        let c: u8 = line[from + 2];
        let d: u8 = line[from + 3];
        let e: u8 = line[from + 4];
        let f: u8 = line[from + 5];
        assert(word[1] == b && word[2] == c && word[3] == d && word[4] == e && word[5] == f);
        assert(word =~= seq![a, b, c, d, e, f]);
        if a == 117 && b == 115 && c == 101 && d == 109 && e == 116 && f == 108 {
            Keyword::UseMaterial
        } else if a == 109 && b == 116 && c == 108 && d == 108 && e == 105 && f == 98 {
            Keyword::MaterialLib
        } else if a == 110 && b == 101 && c == 119 && d == 109 && e == 116 && f == 108 {
            Keyword::NewMaterial
        } else {
            Keyword::Other
        }
    } else {
        Keyword::Other
    }
}

/// Takes a line apart.
pub fn statement(line: &[u8]) -> (r: Statement)
    ensures
        r.keyword == statement_keyword(line@),
        r.args@ == statement_args(line@),
        forall|k: int| 0 <= k < r.args.len() ==> (#[trigger] r.args[k]).0 < r.args[k].1 <= line.len(),
{
    let mut all: Vec<(usize, usize)> = words(line);
    if all.len() == 0 {
        return Statement { keyword: Keyword::Blank, args: all };
    }
    let first: (usize, usize) = all[0];
    let kind: Keyword = keyword(line, first.0, first.1);
    let ghost whole = all@;
    all.remove(0);
    proof {
        assert(all@ =~= whole.skip(1));
        assert forall|k: int| 0 <= k < all.len() implies (#[trigger] all[k]).0 < all[k].1
            <= line.len() by {
            assert(all[k] == whole[k + 1]);
        }
    }
    Statement { keyword: kind, args: all }
}

/// The first material with the given name, if there is one.
pub fn find_material(materials: &Vec<Material>, name: &String) -> (r: Option<usize>)
    ensures
        r matches Some(i) ==> i < materials.len() && materials[i as int].name@ == name@ && forall|
            j: int,
        |
            0 <= j < i ==> (#[trigger] materials[j]).name@ != name@,
        r.is_none() ==> forall|j: int| 0 <= j < materials.len() ==> (#[trigger] materials[j]).name@ != name@,
{
    let mut i: usize = 0;
    while i < materials.len()
        invariant
            i <= materials.len(),
            forall|j: int| 0 <= j < i ==> (#[trigger] materials[j]).name@ != name@,
        decreases materials.len() - i,
    {
        if materials[i].name == *name {
            return Some(i);
        }
        i += 1;
    }
    None
}

} // verus!
