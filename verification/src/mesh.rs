//! Index buffers and triangle assembly.

use vstd::prelude::*;

verus! {

/// The index buffer of a mesh, in either of its two widths. It is read as a
/// flat list of triangles, three indices to a triangle; indices left over at
/// the end belong to no triangle.
#[derive(Clone, Copy, Debug)]
pub enum Indices<'a> {
    U16(&'a Vec<u16>),
    U32(&'a Vec<u32>),
}

impl<'a> View for Indices<'a> {
    type V = Seq<nat>;

    /// The indices as numbers, whatever their width in memory.
    open spec fn view(&self) -> Seq<nat> {
        match *self {
            Indices::U16(v) => Seq::new(v@.len(), |i: int| v@[i] as nat),
            Indices::U32(v) => Seq::new(v@.len(), |i: int| v@[i] as nat),
        }
    }
}

impl<'a> Indices<'a> {
    /// How many indices the buffer holds.
    pub fn len(&self) -> (r: usize)
        ensures
            r == self@.len(),
    {
        match self {
            Indices::U16(v) => v.len(),
            Indices::U32(v) => v.len(),
        }
    }

    /// Whether the buffer holds no index.
    pub fn is_empty(&self) -> (r: bool)
        ensures
            r == (self@.len() == 0),
    {
        self.len() == 0
    }

    /// The index at place `i`, widened to the working index type.
    pub fn get(&self, i: usize) -> (r: u32)
        requires
            i < self@.len(),
        ensures
            r == self@[i as int],
    {
        match self {
            Indices::U16(v) => v[i] as u32,
            Indices::U32(v) => v[i],
        }
    }
}

/// The three corners of one triangle.
#[derive(Debug, PartialEq)]
pub struct Triangle<V> {
    pub v0: V,
    pub v1: V,
    pub v2: V,
}

impl<V: Copy> Clone for Triangle<V> {
    fn clone(&self) -> (r: Self)
        ensures
            r == *self,
    {
        *self
    }
}

impl<V: Copy> Copy for Triangle<V> {

}

/// How many whole triangles a buffer of `len` indices describes.
pub open spec fn triangle_count(len: nat) -> nat {
    len / 3
}

/// Whether every index that belongs to a triangle names one of `vertex_count`
/// vertices.
pub open spec fn indices_in_range(indices: Seq<nat>, vertex_count: nat) -> bool {
    forall|i: int| 0 <= i < 3 * triangle_count(indices.len()) ==> #[trigger] indices[i] < vertex_count
}

/// Triangle number `k` of a mesh: the vertices that its three indices name.
pub open spec fn triangle_at<V>(positions: Seq<V>, indices: Seq<nat>, k: int) -> Triangle<V> {
    Triangle {
        v0: positions[indices[3 * k] as int],
        v1: positions[indices[3 * k + 1] as int],
        v2: positions[indices[3 * k + 2] as int],
    }
}

/// The triangles of a mesh, in the order of the index buffer.
pub open spec fn mesh_triangles<V>(positions: Seq<V>, indices: Seq<nat>) -> Seq<Triangle<V>> {
    Seq::new(triangle_count(indices.len()), |k: int| triangle_at(positions, indices, k))
}

/// Assembles the triangles of a mesh from its vertex positions and its index
/// buffer. A mesh with an index that names no vertex is unusable and gives
/// nothing; a mesh with fewer than three indices has no triangle.
pub fn triangles<V: Copy>(positions: &Vec<V>, indices: &Indices) -> (r: Option<Vec<Triangle<V>>>)
    ensures
        r is Some <==> indices_in_range(indices@, positions@.len()),
        r matches Some(t) ==> t@ == mesh_triangles(positions@, indices@),
{
    let count: usize = indices.len() / 3;
    let mut out: Vec<Triangle<V>> = Vec::new();
    let mut k: usize = 0;
    while k < count
        invariant
            k <= count,
            count == triangle_count(indices@.len()),
            3 * count <= indices@.len() <= usize::MAX,
            forall|i: int| 0 <= i < 3 * k ==> #[trigger] indices@[i] < positions@.len(),
            out@.len() == k,
            forall|j: int| 0 <= j < k ==> #[trigger] out@[j] == triangle_at(positions@, indices@, j),
        decreases count - k,
    {
        let i0 = indices.get(3 * k) as usize;
        let i1 = indices.get(3 * k + 1) as usize;
        let i2 = indices.get(3 * k + 2) as usize;
        if i0 >= positions.len() || i1 >= positions.len() || i2 >= positions.len() {
            assert(indices@[3 * k] >= positions@.len() || indices@[3 * k + 1] >= positions@.len()
                || indices@[3 * k + 2] >= positions@.len());
            return None;
        }
        out.push(Triangle { v0: positions[i0], v1: positions[i1], v2: positions[i2] });
        k += 1;
    }
    assert(out@ =~= mesh_triangles(positions@, indices@));
    Some(out)
}

} // verus!
