//! Indexing the corners of an STL mesh for drawing.
//!
//! Each corner of each facet, in file order, is looked up among the vertices
//! found so far; the first vertex whose position compares equal to it (as
//! `f32` numbers, coordinate by coordinate) is reused, and otherwise the corner
//! becomes a new vertex.  The index list holds one `u16` vertex index per
//! corner, padded with a 0 to an even length.  Positions are `u32` bit
//! patterns of `f32` numbers, as in `stl`.

use vstd::prelude::*;

use crate::stl::{STLTriangle, STL};

verus! {

/// Whether the `f32` number with bit pattern `a` is a NaN: all exponent bits
/// set and a nonzero fraction.
pub open spec fn is_nan_bits(a: u32) -> bool {
    (a / 0x80_0000) % 0x100 == 0xff && a % 0x80_0000 != 0
}

/// Whether the `f32` number with bit pattern `a` is a zero of either sign.
pub open spec fn is_zero_bits(a: u32) -> bool {
    a % 0x8000_0000 == 0
}

/// Whether the `f32` numbers with bit patterns `a` and `b` compare equal with
/// `==`: a NaN equals nothing, the two zeros equal each other, and otherwise
/// the patterns agree.
pub open spec fn f32_bits_eq(a: u32, b: u32) -> bool {
    &&& !is_nan_bits(a)
    &&& !is_nan_bits(b)
    &&& (a == b || (is_zero_bits(a) && is_zero_bits(b)))
}

/// Whether two positions compare equal coordinate by coordinate.
pub open spec fn position_eq(p: [u32; 3], q: [u32; 3]) -> bool {
    f32_bits_eq(p[0], q[0]) && f32_bits_eq(p[1], q[1]) && f32_bits_eq(p[2], q[2])
}

/// The first of `verts` whose position compares equal to `p`.
pub open spec fn position_of(verts: Seq<[u32; 3]>, p: [u32; 3]) -> Option<int>
    decreases verts.len(),
{
    if verts.len() == 0 {
        None
    } else {
        match position_of(verts.drop_last(), p) {
            Some(i) => Some(i),
            None => if position_eq(verts.last(), p) {
                Some(verts.len() - 1)
            } else {
                None
            },
        }
    }
}

/// The vertices and per-corner indices after taking corner `p` too.
pub open spec fn add_corner(state: (Seq<[u32; 3]>, Seq<int>), p: [u32; 3]) -> (Seq<[u32; 3]>, Seq<int>) {
    match position_of(state.0, p) {
        Some(i) => (state.0, state.1.push(i)),
        None => (state.0.push(p), state.1.push(state.0.len() as int)),
    }
}

/// The vertices and per-corner indices of the corners of `tris`, in order.
pub open spec fn index_triangles(tris: Seq<STLTriangle>) -> (Seq<[u32; 3]>, Seq<int>)
    decreases tris.len(),
{
    if tris.len() == 0 {
        (seq![], seq![])
    } else {
        let t = tris.last();
        add_corner(add_corner(add_corner(index_triangles(tris.drop_last()), t.points[0]), t.points[1]), t.points[2])
    }
}

/// The corners of `tris`, three per facet, in order.
pub open spec fn corners(tris: Seq<STLTriangle>) -> Seq<[u32; 3]>
    decreases tris.len(),
{
    if tris.len() == 0 {
        seq![]
    } else {
        let t = tris.last();
        corners(tris.drop_last()) + seq![t.points[0], t.points[1], t.points[2]]
    }
}

/// The index list drawn from per-corner indices: each as a `u16`, and a 0
/// after them when there is an odd number.
pub open spec fn draw_indices(idx: Seq<int>) -> Seq<u16> {
    let cast = Seq::new(idx.len(), |k: int| idx[k] as u16);
    if idx.len() % 2 == 1 {
        cast.push(0u16)
    } else {
        cast
    }
}

/// A mesh's distinct corner positions and the index list that draws its facets.
#[derive(Debug)]
pub struct IndexedMesh {
    pub positions: Vec<[u32; 3]>,
    pub indices: Vec<u16>,
}

fn bits_eq(a: u32, b: u32) -> (r: bool)
    ensures
        r == f32_bits_eq(a, b),
{
    let a_nan = (a / 0x80_0000) % 0x100 == 0xff && a % 0x80_0000 != 0;
    let b_nan = (b / 0x80_0000) % 0x100 == 0xff && b % 0x80_0000 != 0;
    !a_nan && !b_nan && (a == b || (a % 0x8000_0000 == 0 && b % 0x8000_0000 == 0))
}

/// If no vertex before `i` matches `p` and vertex `i` does, `i` is the first.
proof fn lemma_first_match(verts: Seq<[u32; 3]>, p: [u32; 3], i: int)
    requires
        0 <= i <= verts.len(),
        forall|k: int| 0 <= k < i ==> !position_eq(#[trigger] verts[k], p),
        i < verts.len() ==> position_eq(verts[i], p),
    ensures
        position_of(verts, p) == if i < verts.len() {
            Some(i)
        } else {
            None::<int>
        },
    decreases verts.len(),
{
    if verts.len() > 0 {
        if i < verts.len() - 1 {
            lemma_first_match(verts.drop_last(), p, i);
        } else {
            assert forall|k: int| 0 <= k < verts.len() - 1 implies !position_eq(
                #[trigger] verts.drop_last()[k],
                p,
            ) by {
                assert(verts.drop_last()[k] == verts[k]);
            }
            lemma_first_match(verts.drop_last(), p, verts.len() - 1);
        }
    }
}

/// The first vertex whose position compares equal to `p`.
fn find_vertex(verts: &Vec<[u32; 3]>, p: [u32; 3]) -> (r: Option<usize>)
    ensures
        match r {
            Some(i) => position_of(verts@, p) == Some(i as int),
            None => position_of(verts@, p) is None,
        },
{
    let mut i: usize = 0;
    while i < verts.len()
        invariant
            i <= verts@.len(),
            forall|k: int| 0 <= k < i ==> !position_eq(#[trigger] verts@[k], p),
        decreases verts@.len() - i,
    {
        let q = verts[i];
        if bits_eq(q[0], p[0]) && bits_eq(q[1], p[1]) && bits_eq(q[2], p[2]) {
            proof {
                lemma_first_match(verts@, p, i as int);
            }
            return Some(i);
        }
        i = i + 1;
    }
    proof {
        lemma_first_match(verts@, p, i as int);
    }
    None
}

/// Takes corner `p`: reuses the first matching vertex or adds a new one, and
/// records its index.
fn push_corner(verts: &mut Vec<[u32; 3]>, idx: &mut Vec<usize>, p: [u32; 3])
    requires
        old(verts)@.len() < usize::MAX,
    ensures
        ({
            let s = add_corner((old(verts)@, old(idx)@.map_values(|i: usize| i as int)), p);
            &&& final(verts)@ == s.0
            &&& final(idx)@.map_values(|i: usize| i as int) == s.1
        }),
{
    let ghost before = idx@;
    match find_vertex(verts, p) {
        Some(i) => idx.push(i),
        None => {
            verts.push(p);
            idx.push(verts.len() - 1);
        },
    }
    assert(idx@.map_values(|i: usize| i as int) =~= before.map_values(|i: usize| i as int).push(
        idx@.last() as int,
    ));
}

/// Every index names an existing vertex, and each vertex added is new.
proof fn lemma_index_bounds(tris: Seq<STLTriangle>)
    ensures
        index_triangles(tris).0.len() <= 3 * tris.len(),
        index_triangles(tris).1.len() == 3 * tris.len(),
        forall|k: int|
            0 <= k < index_triangles(tris).1.len() ==> 0 <= #[trigger] index_triangles(tris).1[k]
                < index_triangles(tris).0.len(),
    decreases tris.len(),
{
    if tris.len() > 0 {
        lemma_index_bounds(tris.drop_last());
        let t = tris.last();
        let s0 = index_triangles(tris.drop_last());
        let s1 = add_corner(s0, t.points[0]);
        let s2 = add_corner(s1, t.points[1]);
        lemma_add_corner_bounds(s0, t.points[0]);
        lemma_add_corner_bounds(s1, t.points[1]);
        lemma_add_corner_bounds(s2, t.points[2]);
    }
}

proof fn lemma_position_in_range(verts: Seq<[u32; 3]>, p: [u32; 3])
    ensures
        position_of(verts, p) matches Some(i) ==> 0 <= i < verts.len() && position_eq(verts[i], p),
    decreases verts.len(),
{
    if verts.len() > 0 {
        lemma_position_in_range(verts.drop_last(), p);
    }
}

proof fn lemma_add_corner_bounds(s: (Seq<[u32; 3]>, Seq<int>), p: [u32; 3])
    requires
        forall|k: int| 0 <= k < s.1.len() ==> 0 <= #[trigger] s.1[k] < s.0.len(),
    ensures
        add_corner(s, p).0.len() <= s.0.len() + 1,
        add_corner(s, p).1.len() == s.1.len() + 1,
        forall|k: int| 0 <= k < add_corner(s, p).1.len() ==> 0 <= #[trigger] add_corner(s, p).1[k] < add_corner(
            s,
            p,
        ).0.len(),
{
    lemma_position_in_range(s.0, p);
}

impl IndexedMesh {
    /// Indexes the corners of `value`'s facets: the distinct positions, in the
    /// order first met, and the padded `u16` index list.
    pub fn from_stl(value: STL) -> (m: IndexedMesh)
        requires
            3 * value.triangles@.len() < usize::MAX,
        ensures
            m.positions@ == index_triangles(value.triangles@).0,
            m.indices@ == draw_indices(index_triangles(value.triangles@).1),
    {
        let tris = value.triangles;
        let mut verts: Vec<[u32; 3]> = Vec::new();
        let mut idx: Vec<usize> = Vec::new();
        let mut i: usize = 0;
        while i < tris.len()
            invariant
                3 * tris@.len() < usize::MAX,
                i <= tris@.len(),
                verts@ == index_triangles(tris@.take(i as int)).0,
                idx@.map_values(|k: usize| k as int) == index_triangles(tris@.take(i as int)).1,
            decreases tris@.len() - i,
        {
            let t = tris[i];
            proof {
                lemma_index_bounds(tris@.take(i as int));
                assert(tris@.take(i as int + 1).drop_last() =~= tris@.take(i as int));
                assert(verts@.len() <= 3 * i);
            }
            push_corner(&mut verts, &mut idx, t.points[0]);
            push_corner(&mut verts, &mut idx, t.points[1]);
            push_corner(&mut verts, &mut idx, t.points[2]);
            i = i + 1;
        }
        assert(tris@.take(tris@.len() as int) =~= tris@);
        let mut indices: Vec<u16> = Vec::new();
        let mut k: usize = 0;
        while k < idx.len()
            invariant
                k <= idx@.len(),
                indices@ == Seq::new(k as nat, |j: int| idx@[j] as u16),
            decreases idx@.len() - k,
        {
            indices.push(idx[k] as u16);
            k = k + 1;
            assert(indices@ =~= Seq::new(k as nat, |j: int| idx@[j] as u16));
        }
        if indices.len() % 2 != 0 {
            indices.push(0);
        }
        let ghost spec_idx = index_triangles(tris@).1;
        assert(idx@.map_values(|k: usize| k as int) == spec_idx);
        assert(indices@ =~= draw_indices(spec_idx)) by {
            assert forall|j: int| 0 <= j < idx@.len() implies idx@[j] as u16 == spec_idx[j] as u16 by {
                assert(idx@.map_values(|k: usize| k as int)[j] == idx@[j] as int);
            }
        }
        IndexedMesh { positions: verts, indices }
    }
}


/// One corner taken: the old indices and vertices stay, the new index names a
/// vertex that is the corner or compares equal to it, and vertices stay
/// pairwise unequal.
proof fn lemma_add_corner_keeps(s: (Seq<[u32; 3]>, Seq<int>), cs: Seq<[u32; 3]>, p: [u32; 3])
    requires
        s.1.len() == cs.len(),
        forall|k: int|
            0 <= k < s.1.len() ==> 0 <= #[trigger] s.1[k] < s.0.len() && (s.0[s.1[k]] == cs[k]
                || position_eq(s.0[s.1[k]], cs[k])),
        forall|i: int, j: int| 0 <= i < j < s.0.len() ==> !position_eq(#[trigger] s.0[i], #[trigger] s.0[j]),
    ensures
        ({
            let t = add_corner(s, p);
            let ds = cs.push(p);
            &&& t.1.len() == ds.len()
            &&& forall|k: int|
                0 <= k < t.1.len() ==> 0 <= #[trigger] t.1[k] < t.0.len() && (t.0[t.1[k]] == ds[k]
                    || position_eq(t.0[t.1[k]], ds[k]))
            &&& forall|i: int, j: int|
                0 <= i < j < t.0.len() ==> !position_eq(#[trigger] t.0[i], #[trigger] t.0[j])
        }),
{
    lemma_position_in_range(s.0, p);
    let t = add_corner(s, p);
    let ds = cs.push(p);
    if position_of(s.0, p) is None {
        lemma_no_match(s.0, p);
        assert forall|i: int, j: int| 0 <= i < j < t.0.len() implies !position_eq(
            #[trigger] t.0[i],
            #[trigger] t.0[j],
        ) by {
            if j == s.0.len() {
                assert(t.0[j] == p);
                assert(!position_eq(s.0[i], p));
            }
        }
    }
    assert forall|k: int| 0 <= k < t.1.len() implies 0 <= #[trigger] t.1[k] < t.0.len() && (t.0[t.1[k]] == ds[k]
        || position_eq(t.0[t.1[k]], ds[k])) by {
        if k < s.1.len() {
            assert(t.1[k] == s.1[k]);
            assert(ds[k] == cs[k]);
        }
    }
}

/// When no vertex matches `p`, none of them compares equal to it.
proof fn lemma_no_match(verts: Seq<[u32; 3]>, p: [u32; 3])
    requires
        position_of(verts, p) is None,
    ensures
        forall|i: int| 0 <= i < verts.len() ==> !position_eq(#[trigger] verts[i], p),
    decreases verts.len(),
{
    if verts.len() > 0 {
        lemma_no_match(verts.drop_last(), p);
        assert forall|i: int| 0 <= i < verts.len() implies !position_eq(#[trigger] verts[i], p) by {
            if i < verts.len() - 1 {
                assert(verts[i] == verts.drop_last()[i]);
            }
        }
    }
}

/// Law: indexing a mesh gives one index per corner; each names a vertex that
/// is that corner or compares equal to it as `f32` numbers; no two vertices
/// compare equal; and while there are at most 65536 vertices the drawn `u16`
/// indices are exactly those indices, padded to an even count.
pub proof fn law_mesh_index(tris: Seq<STLTriangle>)
    ensures
        ({
            let (verts, idx) = index_triangles(tris);
            let cs = corners(tris);
            &&& idx.len() == cs.len()
            &&& cs.len() == 3 * tris.len()
            &&& forall|k: int|
                0 <= k < idx.len() ==> 0 <= #[trigger] idx[k] < verts.len() && (verts[idx[k]] == cs[k]
                    || position_eq(verts[idx[k]], cs[k]))
            &&& forall|i: int, j: int|
                0 <= i < j < verts.len() ==> !position_eq(#[trigger] verts[i], #[trigger] verts[j])
            &&& draw_indices(idx).len() % 2 == 0
            &&& verts.len() <= 0x1_0000 ==> forall|k: int|
                0 <= k < idx.len() ==> #[trigger] draw_indices(idx)[k] as int == idx[k]
        }),
    decreases tris.len(),
{
    let (verts, idx) = index_triangles(tris);
    if tris.len() > 0 {
        law_mesh_index(tris.drop_last());
        let t = tris.last();
        let s0 = index_triangles(tris.drop_last());
        let c0 = corners(tris.drop_last());
        lemma_add_corner_keeps(s0, c0, t.points[0]);
        let s1 = add_corner(s0, t.points[0]);
        lemma_add_corner_keeps(s1, c0.push(t.points[0]), t.points[1]);
        let s2 = add_corner(s1, t.points[1]);
        lemma_add_corner_keeps(s2, c0.push(t.points[0]).push(t.points[1]), t.points[2]);
        assert(corners(tris) =~= c0.push(t.points[0]).push(t.points[1]).push(t.points[2]));
    }
    if verts.len() <= 0x1_0000 {
        assert forall|k: int| 0 <= k < idx.len() implies #[trigger] draw_indices(idx)[k] as int == idx[k] by {
            assert(0 <= idx[k] < 0x1_0000);
            assert(idx[k] as u16 as int == idx[k]);
        }
    }
}


/// Law: each corner's vertex has the corner's position coordinate by
/// coordinate: in each of the three coordinates the two bit patterns are the
/// same or both are zeros (of either sign). So two corners share a vertex
/// only where, coordinate by coordinate, they too are the same or both zeros:
/// corners that differ in any coordinate never share a vertex.
pub proof fn law_vertex_has_corner_coordinates(tris: Seq<STLTriangle>)
    ensures
        ({
            let (verts, idx) = index_triangles(tris);
            let cs = corners(tris);
            &&& forall|k: int, c: int|
                0 <= k < idx.len() && 0 <= c < 3 ==> {
                    let v = #[trigger] verts[idx[k]][c];
                    let w = cs[k][c];
                    v == w || (v % 0x8000_0000 == 0 && w % 0x8000_0000 == 0)
                }
            &&& forall|j: int, k: int, c: int|
                0 <= j < idx.len() && 0 <= k < idx.len() && idx[j] == idx[k] && 0 <= c < 3 ==> {
                    let p = #[trigger] cs[j][c];
                    let q = #[trigger] cs[k][c];
                    p == q || (p % 0x8000_0000 == 0 && q % 0x8000_0000 == 0)
                }
        }),
{
    law_mesh_index(tris);
    let (verts, idx) = index_triangles(tris);
    let cs = corners(tris);
    assert forall|k: int, c: int| 0 <= k < idx.len() && 0 <= c < 3 implies {
        let v = #[trigger] verts[idx[k]][c];
        let w = cs[k][c];
        v == w || (v % 0x8000_0000 == 0 && w % 0x8000_0000 == 0)
    } by {
        if verts[idx[k]] != cs[k] {
            assert(position_eq(verts[idx[k]], cs[k]));
            assert(c == 0 || c == 1 || c == 2);
        }
    }
    assert forall|j: int, k: int, c: int|
        0 <= j < idx.len() && 0 <= k < idx.len() && idx[j] == idx[k] && 0 <= c < 3 implies {
        let p = #[trigger] cs[j][c];
        let q = #[trigger] cs[k][c];
        p == q || (p % 0x8000_0000 == 0 && q % 0x8000_0000 == 0)
    } by {
        let v = verts[idx[k]][c];
        assert(v == cs[j][c] || (v % 0x8000_0000 == 0 && cs[j][c] % 0x8000_0000 == 0));
        assert(v == cs[k][c] || (v % 0x8000_0000 == 0 && cs[k][c] % 0x8000_0000 == 0));
    }
}


/// Whether the `f32` with bit pattern `x` is a NaN: exponent bits all set and
/// a nonzero fraction.
pub open spec fn nan_pattern(x: u32) -> bool {
    (x / 0x80_0000) % 0x100 == 0xff && x % 0x80_0000 != 0
}

/// Whether two positions are equal as `f32` numbers, coordinate by coordinate:
/// no coordinate is a NaN, and each pair of patterns is the same or both are
/// zeros (every bit but the sign clear).
pub open spec fn same_point(p: [u32; 3], q: [u32; 3]) -> bool {
    forall|c: int|
        0 <= c < 3 ==> {
            &&& !nan_pattern(#[trigger] p[c])
            &&& !nan_pattern(q[c])
            &&& (p[c] == q[c] || (p[c] % 0x8000_0000 == 0 && q[c] % 0x8000_0000 == 0))
        }
}

/// Whether some coordinate of a position is a NaN.
pub open spec fn has_nan(p: [u32; 3]) -> bool {
    nan_pattern(p[0]) || nan_pattern(p[1]) || nan_pattern(p[2])
}

proof fn lemma_same_is_match(p: [u32; 3], q: [u32; 3])
    ensures
        same_point(p, q) == position_eq(p, q),
        same_point(p, q) ==> !has_nan(p) && !has_nan(q),
{
    if position_eq(p, q) {
        assert forall|c: int| 0 <= c < 3 implies {
            &&& !nan_pattern(#[trigger] p[c])
            &&& !nan_pattern(q[c])
            &&& (p[c] == q[c] || (p[c] % 0x8000_0000 == 0 && q[c] % 0x8000_0000 == 0))
        } by {
            assert(c == 0 || c == 1 || c == 2);
        }
    }
    if same_point(p, q) {
        assert(!nan_pattern(p[0]) && !nan_pattern(q[0]));
        assert(!nan_pattern(p[1]) && !nan_pattern(q[1]));
        assert(!nan_pattern(p[2]) && !nan_pattern(q[2]));
    }
}

proof fn lemma_same_trans(p: [u32; 3], q: [u32; 3], r: [u32; 3])
    requires
        same_point(p, q),
        same_point(q, r),
    ensures
        same_point(p, r),
{
    assert forall|c: int| 0 <= c < 3 implies {
        &&& !nan_pattern(#[trigger] p[c])
        &&& !nan_pattern(r[c])
        &&& (p[c] == r[c] || (p[c] % 0x8000_0000 == 0 && r[c] % 0x8000_0000 == 0))
    } by {
        assert(!nan_pattern(q[c]));
    }
}

/// The sharing facts kept while corners are taken: corners equal as `f32`
/// share their vertex, and a corner with a NaN shares it with no other.
pub open spec fn shares_ok(s: (Seq<[u32; 3]>, Seq<int>), cs: Seq<[u32; 3]>) -> bool {
    &&& forall|j: int, k: int|
        0 <= j < cs.len() && 0 <= k < cs.len() && same_point(#[trigger] cs[j], #[trigger] cs[k]) ==> s.1[j] == s.1[k]
    &&& forall|j: int, k: int|
        #![trigger s.1[j], has_nan(cs[k])]
        0 <= j < cs.len() && 0 <= k < cs.len() && j != k && has_nan(cs[k]) ==> s.1[j] != s.1[k]
}

proof fn lemma_add_corner_shares(s: (Seq<[u32; 3]>, Seq<int>), cs: Seq<[u32; 3]>, p: [u32; 3])
    requires
        s.1.len() == cs.len(),
        forall|k: int|
            0 <= k < s.1.len() ==> 0 <= #[trigger] s.1[k] < s.0.len() && (s.0[s.1[k]] == cs[k]
                || position_eq(s.0[s.1[k]], cs[k])),
        forall|i: int, j: int| 0 <= i < j < s.0.len() ==> !position_eq(#[trigger] s.0[i], #[trigger] s.0[j]),
        shares_ok(s, cs),
    ensures
        shares_ok(add_corner(s, p), cs.push(p)),
{
    let t = add_corner(s, p);
    let ds = cs.push(p);
    let n = cs.len() as int;
    lemma_position_in_range(s.0, p);
    assert forall|k: int| 0 <= k < n implies t.1[k] == s.1[k] && ds[k] == cs[k] by {}
    // A vertex that a corner without NaN uses is equal to that corner.
    assert forall|k: int| 0 <= k < n && !has_nan(cs[k]) implies same_point(#[trigger] s.0[s.1[k]], cs[k]) by {
        let v = s.0[s.1[k]];
        if v == cs[k] {
            assert(same_point(v, cs[k]));
        } else {
            lemma_same_is_match(v, cs[k]);
        }
    }
    match position_of(s.0, p) {
        Some(m) => {
            lemma_same_is_match(s.0[m], p);
            assert(t.1[n] == m);
            assert forall|j: int| 0 <= j < n && same_point(#[trigger] cs[j], p) implies s.1[j] == m by {
                let v = s.0[s.1[j]];
                lemma_same_is_match(cs[j], p);
                assert(same_point(v, cs[j]));
                lemma_same_trans(v, cs[j], p);
                lemma_same_is_match(v, p);
                lemma_first_is_only(s.0, p, m, s.1[j]);
            }
            assert forall|j: int, k: int|
                0 <= j < ds.len() && 0 <= k < ds.len() && same_point(#[trigger] ds[j], #[trigger] ds[k]) implies t.1[j]
                == t.1[k] by {
                if j == n && k < n {
                    lemma_same_sym(ds[j], ds[k]);
                } else if j == n && k == n {
                }
            }
            assert forall|j: int, k: int|
                #![trigger t.1[j], has_nan(ds[k])]
                0 <= j < ds.len() && 0 <= k < ds.len() && j != k && has_nan(ds[k]) implies t.1[j] != t.1[k] by {
                if j == n {
                    // The vertex `p` matched has no NaN; the corner with a NaN
                    // uses a vertex that is itself.
                    let v = s.0[s.1[k]];
                    if v != cs[k] {
                        lemma_same_is_match(v, cs[k]);
                    }
                    if s.1[k] == m {
                        lemma_same_is_match(s.0[m], p);
                    }
                } else if k == n {
                    lemma_same_is_match(s.0[m], p);
                }
            }
        },
        None => {
            lemma_no_match(s.0, p);
            assert(t.1[n] == s.0.len());
            assert forall|j: int| 0 <= j < n implies !same_point(#[trigger] cs[j], p) by {
                if same_point(cs[j], p) {
                    let v = s.0[s.1[j]];
                    lemma_same_is_match(cs[j], p);
                    assert(same_point(v, cs[j]));
                    lemma_same_trans(v, cs[j], p);
                    lemma_same_is_match(v, p);
                }
            }
            assert forall|j: int, k: int|
                0 <= j < ds.len() && 0 <= k < ds.len() && same_point(#[trigger] ds[j], #[trigger] ds[k]) implies t.1[j]
                == t.1[k] by {
                if j == n && k < n {
                    lemma_same_sym(ds[j], ds[k]);
                }
            }
        },
    }
}

proof fn lemma_same_sym(p: [u32; 3], q: [u32; 3])
    ensures
        same_point(p, q) == same_point(q, p),
{
    if same_point(p, q) {
        assert forall|c: int| 0 <= c < 3 implies {
            &&& !nan_pattern(#[trigger] q[c])
            &&& !nan_pattern(p[c])
            &&& (q[c] == p[c] || (q[c] % 0x8000_0000 == 0 && p[c] % 0x8000_0000 == 0))
        } by {
            assert(!nan_pattern(p[c]));
        }
    }
    if same_point(q, p) {
        assert forall|c: int| 0 <= c < 3 implies {
            &&& !nan_pattern(#[trigger] p[c])
            &&& !nan_pattern(q[c])
            &&& (p[c] == q[c] || (p[c] % 0x8000_0000 == 0 && q[c] % 0x8000_0000 == 0))
        } by {
            assert(!nan_pattern(q[c]));
        }
    }
}

/// The first vertex matching `p` is the only one: vertices are pairwise
/// unequal, and equality of positions without NaN is transitive.
proof fn lemma_first_is_only(verts: Seq<[u32; 3]>, p: [u32; 3], m: int, i: int)
    requires
        position_of(verts, p) == Some(m),
        0 <= i < verts.len(),
        position_eq(verts[i], p),
        forall|a: int, b: int| 0 <= a < b < verts.len() ==> !position_eq(#[trigger] verts[a], #[trigger] verts[b]),
    ensures
        i == m,
{
    lemma_position_in_range(verts, p);
    if i != m {
        lemma_same_is_match(verts[m], p);
        lemma_same_is_match(verts[i], p);
        lemma_same_sym(verts[i], p);
        lemma_same_trans(verts[m], p, verts[i]);
        lemma_same_is_match(verts[m], verts[i]);
        lemma_same_sym(verts[m], verts[i]);
        lemma_same_is_match(verts[i], verts[m]);
    }
}

proof fn lemma_index_shares(tris: Seq<STLTriangle>)
    ensures
        shares_ok(index_triangles(tris), corners(tris)),
        index_triangles(tris).1.len() == corners(tris).len(),
        forall|k: int|
            0 <= k < index_triangles(tris).1.len() ==> 0 <= #[trigger] index_triangles(tris).1[k]
                < index_triangles(tris).0.len() && (index_triangles(tris).0[index_triangles(tris).1[k]]
                == corners(tris)[k] || position_eq(
                index_triangles(tris).0[index_triangles(tris).1[k]],
                corners(tris)[k],
            )),
        forall|i: int, j: int|
            0 <= i < j < index_triangles(tris).0.len() ==> !position_eq(
                #[trigger] index_triangles(tris).0[i],
                #[trigger] index_triangles(tris).0[j],
            ),
    decreases tris.len(),
{
    law_mesh_index(tris);
    if tris.len() > 0 {
        lemma_index_shares(tris.drop_last());
        let t = tris.last();
        let s0 = index_triangles(tris.drop_last());
        let c0 = corners(tris.drop_last());
        lemma_add_corner_keeps(s0, c0, t.points[0]);
        lemma_add_corner_shares(s0, c0, t.points[0]);
        let s1 = add_corner(s0, t.points[0]);
        let c1 = c0.push(t.points[0]);
        lemma_add_corner_keeps(s1, c1, t.points[1]);
        lemma_add_corner_shares(s1, c1, t.points[1]);
        let s2 = add_corner(s1, t.points[1]);
        let c2 = c1.push(t.points[1]);
        lemma_add_corner_keeps(s2, c2, t.points[2]);
        lemma_add_corner_shares(s2, c2, t.points[2]);
        assert(corners(tris) =~= c2.push(t.points[2]));
    }
}

/// Law: corners that are equal as `f32` numbers in every coordinate share one
/// vertex, and a corner with a NaN coordinate shares its vertex with no other
/// corner (a NaN equals nothing).
pub proof fn law_equal_corners_share(tris: Seq<STLTriangle>)
    ensures
        ({
            let idx = index_triangles(tris).1;
            let cs = corners(tris);
            &&& forall|j: int, k: int|
                0 <= j < cs.len() && 0 <= k < cs.len() && same_point(#[trigger] cs[j], #[trigger] cs[k]) ==> idx[j]
                    == idx[k]
            &&& forall|j: int, k: int|
                #![trigger idx[j], has_nan(cs[k])]
                0 <= j < cs.len() && 0 <= k < cs.len() && j != k && has_nan(cs[k]) ==> idx[j] != idx[k]
        }),
{
    lemma_index_shares(tris);
}

} // verus!
