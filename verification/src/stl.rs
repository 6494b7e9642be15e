//! Reading binary STL meshes.
//!
//! A binary STL file is an 80-byte header, a little-endian `u32` triangle
//! count at offset 80, and then 50 bytes per triangle: a normal and three
//! corner points, each three little-endian `f32` numbers, followed by two
//! attribute bytes.  Numbers are kept here as the `u32` bit patterns of their
//! `f32` values (`f32::from_bits` turns one back into the number).

use vstd::prelude::*;

verus! {

/// One facet: the bit patterns of its normal's and its corners' coordinates.
#[derive(Debug, Clone, Copy, PartialEq, Eq)]
pub struct STLTriangle {
    pub normal: [u32; 3],
    pub points: [[u32; 3]; 3],
}

/// The facets of a mesh, in file order.
#[derive(Debug)]
pub struct STL {
    pub triangles: Vec<STLTriangle>,
}

#[derive(Debug, Clone, Copy, PartialEq, Eq)]
pub enum STLFileError {
    InvalidByteCount,
    Unknown,
}

/// The little-endian `u32` stored in the four bytes at `at`.
pub open spec fn le_u32(data: Seq<u8>, at: int) -> u32 {
    (data[at] as int + data[at + 1] as int * 0x100 + data[at + 2] as int * 0x1_0000 + data[at + 3] as int
        * 0x100_0000) as u32
}

/// The three numbers stored in the twelve bytes at `at`.
pub open spec fn vec3_at(data: Seq<u8>, at: int) -> [u32; 3] {
    [le_u32(data, at), le_u32(data, at + 4), le_u32(data, at + 8)]
}

/// The facet stored in the 48 bytes at `at`.
pub open spec fn triangle_at(data: Seq<u8>, at: int) -> STLTriangle {
    STLTriangle {
        normal: vec3_at(data, at),
        points: [vec3_at(data, at + 12), vec3_at(data, at + 24), vec3_at(data, at + 36)],
    }
}

/// The triangle count of a file (meaningful once it has its 84 header bytes).
pub open spec fn triangle_count(data: Seq<u8>) -> int {
    le_u32(data, 80) as int
}

/// Where facet `i` of a file begins.
pub open spec fn triangle_offset(i: int) -> int {
    84 + i * 50
}

/// Reading the facets the count announces stays inside the data: the last
/// facet's 48 bytes of numbers are present (its two attribute bytes need not be).
pub open spec fn facets_fit(data: Seq<u8>) -> bool {
    data.len() < 84 || triangle_count(data) == 0 || triangle_offset(triangle_count(data) - 1) + 48
        <= data.len()
}

impl STL {
    /// Parses a binary STL file: `InvalidByteCount` when it is shorter than
    /// its 84-byte header, otherwise the facets its count announces.
    pub fn try_from_bytes(value: &[u8]) -> (res: Result<Self, STLFileError>)
        requires
            facets_fit(value@),
        ensures
            value@.len() < 84 <==> res is Err,
            res matches Err(e) ==> e == STLFileError::InvalidByteCount,
            res matches Ok(stl) ==> {
                &&& stl.triangles@.len() == triangle_count(value@)
                &&& stl.triangles@.len() == value@[80] as int + value@[81] as int * 0x100 + value@[82] as int
                    * 0x1_0000 + value@[83] as int * 0x100_0000
                &&& forall|i: int|
                    0 <= i < stl.triangles@.len() ==> #[trigger] stl.triangles@[i] == triangle_at(
                        value@,
                        triangle_offset(i),
                    )
            },
    {
        if value.len() < 84 {
            return Err(STLFileError::InvalidByteCount);
        }
        proof {
            law_count_is_the_whole_word(value@);
        }
        let num_triangles = Self::get_u32(value, 80) as usize;
        let mut triangles: Vec<STLTriangle> = Vec::new();
        let mut i: usize = 0;
        while i < num_triangles
            invariant
                value@.len() >= 84,
                facets_fit(value@),
                num_triangles == triangle_count(value@),
                i <= num_triangles,
                triangles@.len() == i,
                forall|k: int|
                    0 <= k < i ==> #[trigger] triangles@[k] == triangle_at(value@, triangle_offset(k)),
            decreases num_triangles - i,
        {
            assert(triangle_offset(i as int) + 48 <= value@.len()) by (nonlinear_arith)
                requires
                    i < num_triangles,
                    84 + (num_triangles - 1) * 50 + 48 <= value@.len(),
            ;
            let len = value.len();
            assert(84 + i * 50 + 48 <= len);
            let index = 84 + i * 50;
            triangles.push(Self::get_triangle(value, index));
            i = i + 1;
        }
        Ok(STL { triangles })
    }

    /// Whether `value` holds every facet its count announces (see `facets_fit`),
    /// so that `try_from_bytes` can read it.
    pub fn facets_fit(value: &[u8]) -> (b: bool)
        ensures
            b == facets_fit(value@),
    {
        if value.len() < 84 {
            return true;
        }
        let count = Self::get_u32(value, 80) as u64;
        if count == 0 {
            return true;
        }
        let len = value.len();
        84 + (count - 1) * 50 + 48 <= len as u64
    }

    /// The facet stored at `index`.
    pub fn get_triangle(data: &[u8], index: usize) -> (t: STLTriangle)
        requires
            index + 48 <= data@.len(),
        ensures
            t == triangle_at(data@, index as int),
    {
        let len = data.len();
        assert(index + 48 <= len);
        STLTriangle {
            normal: Self::get_vec3(data, index),
            points: [
                Self::get_vec3(data, index + 12),
                Self::get_vec3(data, index + 24),
                Self::get_vec3(data, index + 36),
            ],
        }
    }

    /// The three numbers stored at `index`.
    pub fn get_vec3(data: &[u8], index: usize) -> (v: [u32; 3])
        requires
            index + 12 <= data@.len(),
        ensures
            v == vec3_at(data@, index as int),
    {
        let len = data.len();
        assert(index + 12 <= len);
        [Self::get_u32(data, index), Self::get_u32(data, index + 4), Self::get_u32(data, index + 8)]
    }

    /// The little-endian `u32` stored at `index`, as `u32::from_le_bytes` reads it.
    fn get_u32(data: &[u8], index: usize) -> (v: u32)
        requires
            index + 4 <= data@.len(),
        ensures
            v == le_u32(data@, index as int),
    {
        data[index] as u32 + data[index + 1] as u32 * 0x100 + data[index + 2] as u32 * 0x1_0000
            + data[index + 3] as u32 * 0x100_0000
    }
}


/// The number stored little-endian in the four bytes at `at`, lowest first.
pub open spec fn word_at(data: Seq<u8>, at: int) -> int {
    data[at] as int + data[at + 1] as int * 0x100 + data[at + 2] as int * 0x1_0000 + data[at + 3] as int * 0x100_0000
}

/// Law: the triangle count is the whole little-endian `u32` in bytes 80..84.
pub proof fn law_count_is_the_whole_word(data: Seq<u8>)
    requires
        data.len() >= 84,
    ensures
        triangle_count(data) == word_at(data, 80),
{
    lemma_word_fits(data, 80);
}

proof fn lemma_word_fits(data: Seq<u8>, at: int)
    requires
        0 <= at,
        at + 4 <= data.len(),
    ensures
        le_u32(data, at) as int == word_at(data, at),
{
    let (b0, b1, b2, b3) = (data[at] as int, data[at + 1] as int, data[at + 2] as int, data[at + 3] as int);
    assert(0 <= b0 + b1 * 0x100 + b2 * 0x1_0000 + b3 * 0x100_0000 <= 0xffff_ffff) by (nonlinear_arith)
        requires
            0 <= b0 < 0x100,
            0 <= b1 < 0x100,
            0 <= b2 < 0x100,
            0 <= b3 < 0x100,
    ;
}

/// Law: facet `i` of a file is read from the 48 bytes that begin 84 + 50 i
/// bytes in: its normal's coordinates are the words at offsets 0, 4 and 8 of
/// them, and coordinate `c` of corner `j` the word at 12 + 12 j + 4 c.
pub proof fn law_facet_layout(data: Seq<u8>, i: int)
    requires
        0 <= i,
        84 + 50 * i + 48 <= data.len(),
    ensures
        ({
            let t = triangle_at(data, triangle_offset(i));
            let base = 84 + 50 * i;
            &&& forall|c: int| 0 <= c < 3 ==> #[trigger] t.normal[c] as int == word_at(data, base + 4 * c)
            &&& forall|j: int, c: int|
                0 <= j < 3 && 0 <= c < 3 ==> #[trigger] t.points[j][c] as int == word_at(
                    data,
                    base + 12 + 12 * j + 4 * c,
                )
        }),
{
    let base = 84 + 50 * i;
    assert(triangle_offset(i) == base);
    let t = triangle_at(data, base);
    assert forall|c: int| 0 <= c < 3 implies #[trigger] t.normal[c] as int == word_at(data, base + 4 * c) by {
        lemma_word_fits(data, base + 4 * c);
    }
    assert forall|j: int, c: int| 0 <= j < 3 && 0 <= c < 3 implies #[trigger] t.points[j][c] as int == word_at(
        data,
        base + 12 + 12 * j + 4 * c,
    ) by {
        lemma_word_fits(data, base + 12 + 12 * j + 4 * c);
        assert(j == 0 || j == 1 || j == 2);
    }
}

} // verus!
