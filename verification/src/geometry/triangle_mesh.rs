use vstd::prelude::*;
use super::buffers::TriangleBuffer;

verus! {

/// A mesh vertex: a position and a colour.
#[derive(Debug, Clone, Copy)]
pub struct MeshVertex<P> {
    pub position: P,
    pub color: P,
}

/// An un-indexed triangle mesh: every three consecutive vertices form a triangle.
#[derive(Debug, Clone)]
pub struct TriangleMesh<P> {
    pub vertices: Vec<MeshVertex<P>>,
}

/// A copy of a vertex list.
pub fn copy_vertices<P: Copy>(v: &Vec<MeshVertex<P>>) -> (r: Vec<MeshVertex<P>>)
    ensures
        r@ == v@,
{
    let mut r: Vec<MeshVertex<P>> = Vec::new();
    let mut i: usize = 0;
    while i < v.len()
        invariant
            i <= v@.len(),
            r@ == v@.take(i as int),
        decreases v.len() - i,
    {
        r.push(v[i]);
        assert(v@.take(i + 1) =~= v@.take(i as int).push(v@[i as int]));
        i += 1;
    }
    assert(v@.take(i as int) =~= v@);
    r
}

impl<P: Copy> TriangleMesh<P> {
    pub fn new(vertices: Vec<MeshVertex<P>>) -> (m: TriangleMesh<P>)
        ensures
            m.vertices@ == vertices@,
    {
        TriangleMesh { vertices }
    }

    /// A copy of this mesh.
    pub fn duplicate(&self) -> (m: TriangleMesh<P>)
        ensures
            m.vertices@ == self.vertices@,
    {
        TriangleMesh { vertices: copy_vertices(&self.vertices) }
    }

    /// The render buffer of this mesh: positions and colours in vertex
    /// order and sequential indices (taken modulo 2^32, as a `u32` cast does).
    pub fn to_triangle_buffer(&self) -> (b: TriangleBuffer<P>)
        ensures
            b.position_array@.len() == self.vertices@.len(),
            b.color_array@.len() == self.vertices@.len(),
            b.index_array@.len() == self.vertices@.len(),
            forall|i: int| 0 <= i < self.vertices@.len() ==> #[trigger] b.position_array@[i] == self.vertices@[i].position,
            forall|i: int| 0 <= i < self.vertices@.len() ==> #[trigger] b.color_array@[i] == self.vertices@[i].color,
            forall|i: int| 0 <= i < self.vertices@.len() ==> #[trigger] b.index_array@[i] == i as u32,
    {
        let mut position_array: Vec<P> = Vec::new();
        let mut color_array: Vec<P> = Vec::new();
        let mut index_array: Vec<u32> = Vec::new();
        let mut i: usize = 0;
        while i < self.vertices.len()
            invariant
                i <= self.vertices@.len(),
                position_array@.len() == i,
                color_array@.len() == i,
                index_array@.len() == i,
                forall|j: int| 0 <= j < i ==> #[trigger] position_array@[j] == self.vertices@[j].position,
                forall|j: int| 0 <= j < i ==> #[trigger] color_array@[j] == self.vertices@[j].color,
                forall|j: int| 0 <= j < i ==> #[trigger] index_array@[j] == j as u32,
            decreases self.vertices.len() - i,
        {
            let v = self.vertices[i];
            position_array.push(v.position);
            color_array.push(v.color);
            index_array.push(i as u32);
            i += 1;
        }
        TriangleBuffer::new(&position_array, &color_array, &index_array)
    }
}

} // verus!
