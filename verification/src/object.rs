//! Mesh objects: vertex, texture-coordinate and normal lists, the
//! faces that index into them, a texture, and a model transform.

pub mod texture;

use vstd::prelude::*;
use crate::mat4::{Mat4, MAT_RANGE, mul_entry};
use crate::vec2::Vec2;
use crate::vec3::Vec3;

pub use texture::Texture;

verus! {

/// Why loading a model can fail.
#[derive(Clone, Copy, Debug, PartialEq, Eq, Structural)]
pub enum ModelLoadError {
    /// Reading or decoding the model's data failed.
    IoError,
    /// A numeric field of the model did not parse.
    ParseError,
}

/// Holds data relating to a single face of an object: each triple
/// holds indices into the owning object's vertex, texture-coordinate
/// and normal lists.
#[derive(Clone, Copy, Debug)]
pub struct Face {
    pub vertices: (usize, usize, usize),
    pub tex_coords: (usize, usize, usize),
    pub normals: (usize, usize, usize),
}

/// A mesh with its texture and its model-to-world transform.
#[derive(Clone, Debug)]
pub struct Object {
    pub vertices: Vec<Vec3>,
    pub tex_coords: Vec<Vec2>,
    pub normals: Vec<Vec3>,
    pub faces: Vec<Face>,
    pub texture: Texture,
    pub transformation: Mat4,
}

impl Object {
    /// Composes `mat` onto the object's existing transform.
    pub fn transform(&mut self, mat: Mat4)
        requires
            old(self).transformation.bounded(MAT_RANGE as int),
            mat.bounded(MAT_RANGE as int),
        ensures
            forall|i: int, j: int|
                0 <= i < 4 && 0 <= j < 4
                    ==> #[trigger] final(self).transformation.e(i, j)
                        == mul_entry(old(self).transformation, mat, i, j),
            final(self).vertices == old(self).vertices,
            final(self).tex_coords == old(self).tex_coords,
            final(self).normals == old(self).normals,
            final(self).faces == old(self).faces,
            final(self).texture == old(self).texture,
    {
        self.transformation = self.transformation.mult(mat);
    }
}


/// A slash byte, the separator inside face tokens.
pub open spec fn is_sep(b: u8) -> bool {
    b == 47
}

/// A decimal digit byte.
pub open spec fn is_digit(b: u8) -> bool {
    48 <= b <= 57
}

/// Every byte of the string is a decimal digit.
pub open spec fn all_digits(s: Seq<u8>) -> bool {
    forall|i: int| 0 <= i < s.len() ==> is_digit(#[trigger] s[i])
}

/// The number read from a decimal digit string.
pub open spec fn digits_val(s: Seq<u8>) -> int
    decreases s.len(),
{
    if s.len() == 0 {
        0
    } else {
        digits_val(s.subrange(0, s.len() - 1)) * 10 + (s[s.len() - 1] - 48)
    }
}

/// The digits of a number token: an optional leading plus sign is
/// dropped, as the standard unsigned parse accepts one.
pub open spec fn digits_part(s: Seq<u8>) -> Seq<u8> {
    if s.len() > 0 && s[0] == 43 {
        s.subrange(1, s.len() as int)
    } else {
        s
    }
}

/// What parsing an unsigned number from a byte string yields: the
/// value of a nonempty all-digit string (after an optional plus sign)
/// that fits the machine, and nothing otherwise.
pub open spec fn parse_usize_spec(s: Seq<u8>) -> Option<int> {
    if digits_part(s).len() > 0 && all_digits(digits_part(s))
        && digits_val(digits_part(s)) <= usize::MAX {
        Some(digits_val(digits_part(s)))
    } else {
        None
    }
}

/// The number of separators in the string.
pub open spec fn sep_count(s: Seq<u8>) -> int
    decreases s.len(),
{
    if s.len() == 0 {
        0
    } else {
        (if is_sep(s[0]) { 1int } else { 0 }) + sep_count(s.subrange(1, s.len() as int))
    }
}

/// The prefix of the string up to its first separator.
pub open spec fn head_field(s: Seq<u8>) -> Seq<u8>
    decreases s.len(),
{
    if s.len() == 0 {
        s
    } else if is_sep(s[0]) {
        Seq::empty()
    } else {
        seq![s[0]] + head_field(s.subrange(1, s.len() as int))
    }
}

/// What follows the string's first separator.
pub open spec fn tail_fields(s: Seq<u8>) -> Seq<u8>
    decreases s.len(),
{
    if s.len() == 0 {
        s
    } else if is_sep(s[0]) {
        s.subrange(1, s.len() as int)
    } else {
        tail_fields(s.subrange(1, s.len() as int))
    }
}

/// The `k`-th separator-delimited field of the string.
pub open spec fn field_at(s: Seq<u8>, k: int) -> Seq<u8>
    decreases k,
{
    if k <= 0 {
        head_field(s)
    } else {
        field_at(tail_fields(s), k - 1)
    }
}

/// Splitting a string at its first separator: the head field is what
/// precedes it, the tail what follows it.
proof fn lemma_first_sep(s: Seq<u8>, p: int)
    requires
        0 <= p < s.len(),
        is_sep(s[p]),
        forall|j: int| 0 <= j < p ==> !is_sep(#[trigger] s[j]),
    ensures
        head_field(s) == s.subrange(0, p),
        tail_fields(s) == s.subrange(p + 1, s.len() as int),
        sep_count(s) == 1 + sep_count(s.subrange(p + 1, s.len() as int)),
    decreases p,
{
    let s1 = s.subrange(1, s.len() as int);
    if p == 0 {
        assert(head_field(s) =~= s.subrange(0, 0));
        assert(tail_fields(s) =~= s.subrange(1, s.len() as int));
    } else {
        lemma_first_sep(s1, p - 1);
        assert(head_field(s) =~= s.subrange(0, p)) by {
            assert(s1.subrange(0, p - 1) =~= s.subrange(1, p));
            assert(seq![s[0]] + s.subrange(1, p) =~= s.subrange(0, p));
        }
        assert(tail_fields(s) =~= s.subrange(p + 1, s.len() as int)) by {
            assert(s1.subrange(p, s1.len() as int) =~= s.subrange(p + 1, s.len() as int));
        }
        assert(s1.subrange(p, s1.len() as int) =~= s.subrange(p + 1, s.len() as int));
    }
}

/// A string without separators is one single field.
proof fn lemma_no_sep(s: Seq<u8>)
    requires
        forall|j: int| 0 <= j < s.len() ==> !is_sep(#[trigger] s[j]),
    ensures
        head_field(s) == s,
        sep_count(s) == 0,
    decreases s.len(),
{
    if s.len() > 0 {
        let s1 = s.subrange(1, s.len() as int);
        lemma_no_sep(s1);
        assert(head_field(s) =~= s);
    }
}

/// A separator count is never negative.
proof fn lemma_sep_count_nonneg(s: Seq<u8>)
    ensures
        sep_count(s) >= 0,
    decreases s.len(),
{
    if s.len() > 0 {
        lemma_sep_count_nonneg(s.subrange(1, s.len() as int));
    }
}

/// Digit strings denote nonnegative numbers.
proof fn lemma_digits_val_nonneg(s: Seq<u8>)
    requires
        all_digits(s),
    ensures
        digits_val(s) >= 0,
    decreases s.len(),
{
    if s.len() > 0 {
        let p = s.subrange(0, s.len() - 1);
        lemma_digits_val_nonneg(p);
        assert(digits_val(p) * 10 >= 0) by (nonlinear_arith)
            requires digits_val(p) >= 0,
        ;
    }
}

/// Extending a digit string never shrinks its value.
proof fn lemma_digits_val_mono(s: Seq<u8>, j: int)
    requires
        all_digits(s),
        0 <= j <= s.len(),
    ensures
        digits_val(s) >= digits_val(s.subrange(0, j)),
    decreases s.len() - j,
{
    if j == s.len() {
        assert(s.subrange(0, j) =~= s);
    } else {
        let q = s.subrange(0, j + 1);
        assert(all_digits(q));
        assert(q.subrange(0, j) =~= s.subrange(0, j));
        lemma_digits_val_nonneg(s.subrange(0, j));
        assert(digits_val(s.subrange(0, j)) * 10 >= digits_val(s.subrange(0, j)))
            by (nonlinear_arith)
            requires digits_val(s.subrange(0, j)) >= 0,
        ;
        lemma_digits_val_mono(s, j + 1);
    }
}

/// The position of the first separator in the slice, if any.
fn find_sep(s: &[u8]) -> (r: Option<usize>)
    ensures
        r matches Some(p) ==> p < s@.len() && is_sep(s@[p as int])
            && (forall|j: int| 0 <= j < p ==> !is_sep(#[trigger] s@[j])),
        r is None ==> forall|j: int| 0 <= j < s@.len() ==> !is_sep(#[trigger] s@[j]),
{
    let mut i: usize = 0;
    while i < s.len()
        invariant
            i <= s@.len(),
            forall|j: int| 0 <= j < i ==> !is_sep(#[trigger] s@[j]),
        decreases s@.len() - i,
    {
        if s[i] == 47 {
            return Some(i);
        }
        i += 1;
    }
    None
}

/// Parses a slice of digits, after an optional plus sign, as an
/// unsigned number; anything else, including overflow, is a parse
/// error.
fn parse_usize(t: &[u8]) -> (r: Result<usize, ModelLoadError>)
    ensures
        parse_usize_spec(t@) matches Some(v) ==> (r matches Ok(u) && u == v),
        parse_usize_spec(t@) is None ==> r == Result::<usize, ModelLoadError>::Err(
            ModelLoadError::ParseError),
{
    let s: &[u8] = if t.len() > 0 && t[0] == 43 {
        vstd::slice::slice_subrange(t, 1, t.len())
    } else {
        t
    };
    proof {
        assert(s@ == digits_part(t@));
    }
    if s.len() == 0 {
        return Err(ModelLoadError::ParseError);
    }
    let mut acc: usize = 0;
    let mut i: usize = 0;
    while i < s.len()
        invariant
            s@ == digits_part(t@),
            s@.len() > 0,
            i <= s@.len(),
            all_digits(s@.subrange(0, i as int)),
            acc == digits_val(s@.subrange(0, i as int)),
        decreases s@.len() - i,
    {
        let b = s[i];
        if b < 48 || b > 57 {
            return Err(ModelLoadError::ParseError);
        }
        let d = (b - 48) as usize;
        let lim = (usize::MAX - d) / 10;
        proof {
            let q = s@.subrange(0, i + 1);
            assert(q.subrange(0, i as int) =~= s@.subrange(0, i as int));
            assert(q[i as int] == s@[i as int]);
            vstd::arithmetic::div_mod::lemma_fundamental_div_mod(
                usize::MAX - d, 10);
            vstd::arithmetic::div_mod::lemma_mod_bound(usize::MAX - d, 10);
        }
        if acc > lim {
            proof {
                let q = s@.subrange(0, i + 1);
                assert(digits_val(q) == acc * 10 + d);
                assert(acc * 10 + d > usize::MAX) by (nonlinear_arith)
                    requires
                        acc > (usize::MAX - d as int) / 10,
                        usize::MAX - d as int == 10 * ((usize::MAX - d as int) / 10)
                            + (usize::MAX - d as int) % 10,
                        0 <= (usize::MAX - d as int) % 10 < 10,
                ;
                if all_digits(s@) {
                    assert(q =~= s@.subrange(0, i + 1));
                    lemma_digits_val_mono(s@, i + 1);
                }
            }
            return Err(ModelLoadError::ParseError);
        }
        proof {
            let q = s@.subrange(0, i + 1);
            assert(acc * 10 + d <= usize::MAX) by (nonlinear_arith)
                requires
                    acc <= (usize::MAX - d as int) / 10,
                    usize::MAX - d as int == 10 * ((usize::MAX - d as int) / 10)
                        + (usize::MAX - d as int) % 10,
                    0 <= (usize::MAX - d as int) % 10 < 10,
                    acc >= 0,
            ;
            assert(digits_val(q) == acc * 10 + d);
        }
        acc = acc * 10 + d;
        i += 1;
    }
    proof {
        assert(s@.subrange(0, s@.len() as int) =~= s@);
    }
    Ok(acc)
}

/// Extracts an unsigned value from a separator-delimited byte string
/// at a given field index.  A string with too few fields yields zero;
/// a field that is not a plain number is a parse error.
pub fn get_face_data(face_string: &[u8], index: usize) -> (r: Result<usize, ModelLoadError>)
    ensures
        sep_count(face_string@) < index ==> r == Result::<usize, ModelLoadError>::Ok(0),
        sep_count(face_string@) >= index ==> ({
            let f = field_at(face_string@, index as int);
            (parse_usize_spec(f) matches Some(v) ==> (r matches Ok(u) && u == v))
            && (parse_usize_spec(f) is None ==> r == Result::<usize, ModelLoadError>::Err(
                ModelLoadError::ParseError))
        }),
{
    let mut rest: &[u8] = face_string;
    let mut k: usize = 0;
    while k < index
        invariant
            k <= index,
            field_at(face_string@, index as int) == field_at(rest@, index - k),
            sep_count(face_string@) >= index <==> sep_count(rest@) >= index - k,
        decreases index - k,
    {
        match find_sep(rest) {
            Some(p) => {
                proof {
                    lemma_first_sep(rest@, p as int);
                    lemma_sep_count_nonneg(rest@.subrange(p + 1, rest@.len() as int));
                }
                assert(p < rest.len());
                rest = vstd::slice::slice_subrange(rest, p + 1, rest.len());
                k += 1;
            },
            None => {
                proof {
                    lemma_no_sep(rest@);
                }
                return Ok(0);
            },
        }
    }
    proof {
        lemma_sep_count_nonneg(rest@);
    }
    let fe: usize;
    match find_sep(rest) {
        Some(p) => {
            fe = p;
            proof {
                lemma_first_sep(rest@, p as int);
            }
        },
        None => {
            fe = rest.len();
            proof {
                lemma_no_sep(rest@);
                assert(rest@.subrange(0, fe as int) =~= rest@);
            }
        },
    }
    parse_usize(vstd::slice::slice_subrange(rest, 0, fe))
}

} // verus!
