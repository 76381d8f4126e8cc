//! The face lines of Wavefront OBJ meshes: `f v1/t1/n1 v2/t2/n2 v3/t3/n3 [v4/t4/n4]`,
//! with indices counted from 1 and the texture and normal parts optional.
use vstd::prelude::*;
use crate::numbers::{
    IntErrorKind, parse_unsigned, lemma_parse_unsigned_bounded, parse_unsigned_word, pos_of, lemma_pos_of_bound, lemma_pos_of_at, is_float_literal,
    float_literal,
};
use crate::scene::Triple;
use crate::text::{words, views, split_words, eq_str, copy_chars};

verus! {

/// A corner of a face: its vertex and, when the face gives one, its normal,
/// both as indices counted from 0.
#[derive(Clone, Copy, Debug, PartialEq, Eq, Structural)]
pub struct FaceVertex {
    pub vertex: usize,
    pub normal: Option<usize>,
}

/// The pieces of a word between the occurrences of `sep` (what `str::split`
/// yields; there is always at least one piece).
pub open spec fn split_on(s: Seq<char>, sep: char) -> Seq<Seq<char>>
    decreases s.len(),
{
    let k = pos_of(s, sep, sep) as int;
    proof {
        lemma_pos_of_bound(s, sep, sep);
    }
    if k >= s.len() {
        seq![s]
    } else {
        seq![s.take(k)] + split_on(s.skip(k + 1), sep)
    }
}

/// An index counted from 1, as an index counted from 0; `None` when the word
/// is not a positive integer.
pub open spec fn index_from_one(w: Seq<char>) -> Option<usize> {
    match parse_unsigned(w, usize::MAX as nat) {
        Ok(v) => if v >= 1 {
            Some((v - 1) as usize)
        } else {
            None
        },
        Err(_) => None,
    }
}

/// The corner that a face word describes: the vertex index of its first
/// part and the normal index of its third part, if it has one. `None` when
/// one of them is not a positive integer.
pub open spec fn face_vertex(w: Seq<char>) -> Option<FaceVertex> {
    let parts = split_on(w, '/');
    match index_from_one(parts[0]) {
        None => None,
        Some(v) => if parts.len() > 2 {
            match index_from_one(parts[2]) {
                None => None,
                Some(n) => Some(FaceVertex { vertex: v, normal: Some(n) }),
            }
        } else {
            Some(FaceVertex { vertex: v, normal: None })
        },
    }
}

/// The pieces of a word between slashes.
fn split_slash(s: &Vec<char>) -> (r: Vec<Vec<char>>)
    ensures
        r@.map_values(|p: Vec<char>| p@) == split_on(s@, '/'),
        r@.len() >= 1,
{
    let n = s.len();
    let mut r: Vec<Vec<char>> = Vec::new();
    let mut i: usize = 0;
    assert(s@.skip(0) =~= s@);
    loop
        invariant
            n == s@.len(),
            i <= n,
            r@.map_values(|p: Vec<char>| p@) + split_on(s@.skip(i as int), '/') == split_on(
                s@,
                '/',
            ),
        ensures
            r@.map_values(|p: Vec<char>| p@) == split_on(s@, '/'),
            r@.len() >= 1,
        decreases n - i,
    {
        let start = i;
        let mut piece: Vec<char> = Vec::new();
        while i < n && s[i] != '/'
            invariant
                n == s@.len(),
                start <= i <= n,
                piece@ == s@.subrange(start as int, i as int),
                forall|k: int| start <= k < i ==> #[trigger] s@[k] != '/',
            decreases n - i,
        {
            piece.push(s[i]);
            i += 1;
        }
        proof {
            let t = s@.skip(start as int);
            lemma_pos_of_at(s@, '/', '/', start as int, i as int);
            assert(r@.push(piece).map_values(|p: Vec<char>| p@) =~= r@.map_values(
                |p: Vec<char>| p@,
            ).push(piece@));
            if i < n {
                assert(t.take(i - start) =~= piece@);
                assert(t.skip(i - start + 1) =~= s@.skip(i + 1));
            } else {
                assert(t =~= piece@);
            }
        }
        r.push(piece);
        if i >= n {
            assert(r@.map_values(|p: Vec<char>| p@) =~= split_on(s@, '/'));
            return r;
        }
        i += 1;
        assert(r@.map_values(|p: Vec<char>| p@) + split_on(s@.skip(i as int), '/') =~= split_on(
            s@,
            '/',
        ));
    }
}

fn index_from_one_exec(w: &Vec<char>) -> (r: Option<usize>)
    ensures
        r == index_from_one(w@),
{
    match parse_unsigned_word(w, usize::MAX as u64) {
        Ok(v) => {
            if v >= 1 {
                Some((v - 1) as usize)
            } else {
                None
            }
        },
        Err(_) => None,
    }
}

/// The corner that a face word describes.
pub fn face_vertex_of(w: &Vec<char>) -> (r: Option<FaceVertex>)
    ensures
        r == face_vertex(w@),
{
    let parts = split_slash(w);
    assert(parts@.map_values(|p: Vec<char>| p@)[0] == parts@[0]@);
    let v = match index_from_one_exec(&parts[0]) {
        Some(v) => v,
        None => return None,
    };
    if parts.len() > 2 {
        assert(parts@.map_values(|p: Vec<char>| p@)[2] == parts@[2]@);
        match index_from_one_exec(&parts[2]) {
            Some(n) => Some(FaceVertex { vertex: v, normal: Some(n) }),
            None => None,
        }
    } else {
        Some(FaceVertex { vertex: v, normal: None })
    }
}

/// The corners of a face line given as its words (the first being `f`);
/// `None` when a corner word is malformed.
pub fn parse_face(words: &Vec<Vec<char>>) -> (r: Option<Vec<FaceVertex>>)
    requires
        words@.len() >= 1,
    ensures
        match r {
            Some(corners) => corners@.len() == words@.len() - 1 && forall|k: int|
                0 <= k < corners@.len() ==> Some(#[trigger] corners@[k]) == face_vertex(
                    words@[k + 1]@,
                ),
            None => exists|k: int| 1 <= k < words@.len() && (#[trigger] face_vertex(words@[k]@))
                is None,
        },
{
    let mut corners: Vec<FaceVertex> = Vec::new();
    let mut k: usize = 1;
    while k < words.len()
        invariant
            1 <= k <= words@.len(),
            corners@.len() == k - 1,
            forall|j: int| 0 <= j < corners@.len() ==> Some(#[trigger] corners@[j]) == face_vertex(
                words@[j + 1]@,
            ),
        decreases words@.len() - k,
    {
        match face_vertex_of(&words[k]) {
            Some(c) => corners.push(c),
            None => return None,
        }
        k += 1;
    }
    Some(corners)
}

/// The triangles that a face with `corners` corners is cut into, as
/// positions among its corners: the first three, and for a quad also the
/// first, third and fourth.
pub fn face_triangles(corners: usize) -> (r: Vec<(usize, usize, usize)>)
    requires
        corners >= 3,
    ensures
        r@ == if corners == 4 {
            seq![(0usize, 1usize, 2usize), (0usize, 2usize, 3usize)]
        } else {
            seq![(0usize, 1usize, 2usize)]
        },
{
    let mut r: Vec<(usize, usize, usize)> = Vec::new();
    r.push((0, 1, 2));
    if corners == 4 {
        r.push((0, 2, 3));
    }
    assert(r@ =~= if corners == 4 {
        seq![(0usize, 1usize, 2usize), (0usize, 2usize, 3usize)]
    } else {
        seq![(0usize, 1usize, 2usize)]
    });
    r
}

/// A line of an OBJ file, as the mesh reader uses it.
#[derive(Clone, Debug)]
pub enum ObjLine<T, F> {
    /// An empty line.
    Blank,
    /// A line whose first word is `#`.
    Comment,
    /// `v x y z`: a vertex position.
    Vertex(Triple<T>),
    /// `vn x y z`: a normal.
    Normal(Triple<T>),
    /// `f ...`: a face, as its corners.
    Face(F),
    /// Any other line, which the reader ignores.
    Other,
}

impl<T: View, F: View> View for ObjLine<T, F> {
    type V = ObjLine<T::V, F::V>;

    open spec fn view(&self) -> ObjLine<T::V, F::V> {
        match self {
            ObjLine::Blank => ObjLine::Blank,
            ObjLine::Comment => ObjLine::Comment,
            ObjLine::Vertex(t) => ObjLine::Vertex(t@),
            ObjLine::Normal(t) => ObjLine::Normal(t@),
            ObjLine::Face(f) => ObjLine::Face(f@),
            ObjLine::Other => ObjLine::Other,
        }
    }
}

/// Why the mesh reader gives up on a line.
#[derive(Clone, Copy, Debug, PartialEq, Eq, Structural)]
pub enum ObjLineError {
    /// A non-empty line without words.
    NoWords,
    /// A `v` or `vn` line with fewer than three coordinates.
    MissingCoordinate,
    /// A vertex coordinate (0, 1 or 2 for x, y, z) that is not a number.
    BadVertexCoordinate(u8),
    /// A normal coordinate that is not a number.
    BadNormalCoordinate(u8),
    /// A face corner whose vertex or normal index is not a positive integer.
    BadFaceIndex,
    /// A face with fewer than three corners.
    TooFewCorners,
}

pub open spec fn coordinates(w: Seq<Seq<char>>, normal: bool) -> Result<Triple<Seq<char>>, ObjLineError> {
    let bad = |k: u8| if normal {
        ObjLineError::BadNormalCoordinate(k)
    } else {
        ObjLineError::BadVertexCoordinate(k)
    };
    if w.len() < 4 {
        if w.len() >= 2 && !is_float_literal(w[1]) {
            Err(bad(0))
        } else if w.len() >= 3 && !is_float_literal(w[2]) {
            Err(bad(1))
        } else {
            Err(ObjLineError::MissingCoordinate)
        }
    } else if !is_float_literal(w[1]) {
        Err(bad(0))
    } else if !is_float_literal(w[2]) {
        Err(bad(1))
    } else if !is_float_literal(w[3]) {
        Err(bad(2))
    } else {
        Ok(Triple { x: w[1], y: w[2], z: w[3] })
    }
}

/// How the mesh reader reads a line.
pub open spec fn obj_line(line: Seq<char>) -> Result<ObjLine<Seq<char>, Seq<FaceVertex>>, ObjLineError> {
    let w = words(line);
    if line.len() == 0 {
        Ok(ObjLine::Blank)
    } else if w.len() == 0 {
        Err(ObjLineError::NoWords)
    } else if w[0] == "#"@ {
        Ok(ObjLine::Comment)
    } else if w[0] == "v"@ {
        match coordinates(w, false) {
            Ok(t) => Ok(ObjLine::Vertex(t)),
            Err(e) => Err(e),
        }
    } else if w[0] == "vn"@ {
        match coordinates(w, true) {
            Ok(t) => Ok(ObjLine::Normal(t)),
            Err(e) => Err(e),
        }
    } else if w[0] == "f"@ {
        if exists|k: int| 1 <= k < w.len() && (#[trigger] face_vertex(w[k])) is None {
            Err(ObjLineError::BadFaceIndex)
        } else if w.len() < 4 {
            Err(ObjLineError::TooFewCorners)
        } else {
            Ok(
                ObjLine::Face(
                    Seq::new((w.len() - 1) as nat, |k: int| face_vertex(w[k + 1])->0),
                ),
            )
        }
    } else {
        Ok(ObjLine::Other)
    }
}

fn coordinates_of(w: &Vec<Vec<char>>, normal: bool) -> (r: Result<Triple<Vec<char>>, ObjLineError>)
    requires
        w@.len() >= 1,
    ensures
        match r {
            Ok(t) => coordinates(views(w@), normal) == Ok::<Triple<Seq<char>>, ObjLineError>(t@),
            Err(e) => coordinates(views(w@), normal) == Err::<Triple<Seq<char>>, ObjLineError>(e),
        },
{
    let ghost v = views(w@);
    let n = w.len();
    let mut k: usize = 1;
    while k < 4 && k < n
        invariant
            v == views(w@),
            n == w@.len(),
            1 <= k <= 4,
            forall|j: int| 1 <= j < k ==> is_float_literal(#[trigger] v[j]),
        decreases 4 - k,
    {
        assert(v[k as int] == w@[k as int]@);
        if !float_literal(&w[k]) {
            let c = (k - 1) as u8;
            return Err(
                if normal {
                    ObjLineError::BadNormalCoordinate(c)
                } else {
                    ObjLineError::BadVertexCoordinate(c)
                },
            );
        }
        k += 1;
    }
    if n < 4 {
        return Err(ObjLineError::MissingCoordinate);
    }
    assert(v[1] == w@[1]@ && v[2] == w@[2]@ && v[3] == w@[3]@);
    Ok(Triple { x: copy_chars(&w[1]), y: copy_chars(&w[2]), z: copy_chars(&w[3]) })
}

/// Reads a line of an OBJ file.
pub fn read_obj_line(line: &Vec<char>) -> (r: Result<ObjLine<Vec<char>, Vec<FaceVertex>>, ObjLineError>)
    ensures
        match r {
            Ok(l) => obj_line(line@) == Ok::<ObjLine<Seq<char>, Seq<FaceVertex>>, ObjLineError>(
                l@,
            ),
            Err(e) => obj_line(line@) == Err::<ObjLine<Seq<char>, Seq<FaceVertex>>, ObjLineError>(
                e,
            ),
        },
{
    if line.len() == 0 {
        return Ok(ObjLine::Blank);
    }
    let w = split_words(line);
    let ghost v = views(w@);
    if w.len() == 0 {
        return Err(ObjLineError::NoWords);
    }
    assert(v[0] == w@[0]@);
    if eq_str(&w[0], "#") {
        Ok(ObjLine::Comment)
    } else if eq_str(&w[0], "v") {
        match coordinates_of(&w, false) {
            Ok(t) => Ok(ObjLine::Vertex(t)),
            Err(e) => Err(e),
        }
    } else if eq_str(&w[0], "vn") {
        match coordinates_of(&w, true) {
            Ok(t) => Ok(ObjLine::Normal(t)),
            Err(e) => Err(e),
        }
    } else if eq_str(&w[0], "f") {
        match parse_face(&w) {
            None => {
                proof {
                    let k = choose|k: int| 1 <= k < w@.len() && (#[trigger] face_vertex(w@[k]@)) is None;
                    assert(v[k] == w@[k]@);
                }
                Err(ObjLineError::BadFaceIndex)
            },
            Some(corners) => {
                proof {
                    assert forall|k: int| 1 <= k < v.len() implies (#[trigger] face_vertex(v[k])) is Some by {
                        assert(v[k] == w@[k]@);
                        assert(Some(corners@[k - 1]) == face_vertex(w@[k]@));
                    }
                }
                if corners.len() < 3 {
                    Err(ObjLineError::TooFewCorners)
                } else {
                    proof {
                        assert forall|k: int| 0 <= k < corners@.len() implies corners@[k] == face_vertex(
                            v[k + 1],
                        )->0 by {
                            assert(v[k + 1] == w@[k + 1]@);
                        }
                        assert(corners@ =~= Seq::new(
                            (v.len() - 1) as nat,
                            |k: int| face_vertex(v[k + 1])->0,
                        ));
                    }
                    Ok(ObjLine::Face(corners))
                }
            },
        }
    } else {
        Ok(ObjLine::Other)
    }
}


/// A `v` or `vn` line gives its point as the first, second and third words
/// after the keyword, in that order; a face line gives one corner per word
/// after `f`, in order, whose vertex is the word's first `/`-part and whose
/// normal is its third part, both counted from 1.
pub proof fn law_obj_line_fields(line: Seq<char>)
    ensures
        obj_line(line) matches Ok(ObjLine::Vertex(t)) ==> {
            let w = words(line);
            &&& w.len() >= 4
            &&& w[0] == "v"@
            &&& t.x == w[1]
            &&& t.y == w[2]
            &&& t.z == w[3]
        },
        obj_line(line) matches Ok(ObjLine::Normal(t)) ==> {
            let w = words(line);
            &&& w.len() >= 4
            &&& w[0] == "vn"@
            &&& t.x == w[1]
            &&& t.y == w[2]
            &&& t.z == w[3]
        },
        obj_line(line) matches Ok(ObjLine::Face(cs)) ==> {
            let w = words(line);
            &&& w[0] == "f"@
            &&& cs.len() == w.len() - 1
            &&& cs.len() >= 3
            &&& forall|k: int|
                0 <= k < cs.len() ==> {
                    let parts = split_on(#[trigger] w[k + 1], '/');
                    &&& parse_unsigned(parts[0], usize::MAX as nat) == Ok::<nat, IntErrorKind>(
                        (cs[k].vertex + 1) as nat,
                    )
                    &&& (parts.len() > 2 ==> parse_unsigned(parts[2], usize::MAX as nat) == Ok::<
                        nat,
                        IntErrorKind,
                    >(((cs[k].normal->0) + 1) as nat) && cs[k].normal is Some)
                    &&& (parts.len() <= 2 ==> cs[k].normal is None)
                }
        },
{
    let w = words(line);
    if obj_line(line) is Ok {
        if w.len() > 0 && w[0] == "f"@ {
            if let Ok(ObjLine::Face(cs)) = obj_line(line) {
                assert forall|k: int| 0 <= k < cs.len() implies {
                    let parts = split_on(#[trigger] w[k + 1], '/');
                    &&& parse_unsigned(parts[0], usize::MAX as nat) == Ok::<nat, IntErrorKind>(
                        (cs[k].vertex + 1) as nat,
                    )
                    &&& (parts.len() > 2 ==> parse_unsigned(parts[2], usize::MAX as nat) == Ok::<
                        nat,
                        IntErrorKind,
                    >(((cs[k].normal->0) + 1) as nat) && cs[k].normal is Some)
                    &&& (parts.len() <= 2 ==> cs[k].normal is None)
                } by {
                    let parts = split_on(w[k + 1], '/');
                    lemma_parse_unsigned_bounded(parts[0], usize::MAX as nat);
                    lemma_parse_unsigned_bounded(parts[2], usize::MAX as nat);
                    assert(face_vertex(w[k + 1]) is Some);
                    assert(cs[k] == face_vertex(w[k + 1])->0);
                }
            }
        }
    }
}

} // verus!
