use vstd::prelude::*;

verus! {

/// The CPU side of a triangle render buffer: vertex positions, colours and
/// the triangle indices.  The GPU buffers are made from these arrays.
pub struct TriangleBuffer<P> {
    pub position_array: Vec<P>,
    pub color_array: Vec<P>,
    pub index_array: Vec<u32>,
}

/// The CPU side of a line render buffer: vertex positions, colours and
/// pairs of indices, one pair per line segment.
pub struct LineBuffer<P> {
    pub position_array: Vec<P>,
    pub color_array: Vec<P>,
    pub index_array: Vec<u32>,
}

/// A copy of a vector of copyable values.
pub fn copy_vec<T: Copy>(v: &Vec<T>) -> (r: Vec<T>)
    ensures
        r@ == v@,
{
    let mut r: Vec<T> = Vec::new();
    let mut i: usize = 0;
    while i < v.len()
        invariant
            i <= v@.len(),
            r@ == v@.take(i as int),
        decreases v.len() - i,
    {
        r.push(v[i]);
        assert(v@.take(i + 1) =~= v@.take(i as int).push(v@[i as int]));
        i += 1;
    }
    assert(v@.take(i as int) =~= v@);
    r
}

impl<P: Copy> TriangleBuffer<P> {
    pub fn new(position_array: &Vec<P>, color_array: &Vec<P>, index_array: &Vec<u32>) -> (b: Self)
        ensures
            b.position_array@ == position_array@,
            b.color_array@ == color_array@,
            b.index_array@ == index_array@,
    {
        TriangleBuffer {
            position_array: copy_vec(position_array),
            color_array: copy_vec(color_array),
            index_array: copy_vec(index_array),
        }
    }
}

impl<P: Copy> LineBuffer<P> {
    pub fn new(position_array: &Vec<P>, color_array: &Vec<P>, index_array: &Vec<u32>) -> (b: Self)
        ensures
            b.position_array@ == position_array@,
            b.color_array@ == color_array@,
            b.index_array@ == index_array@,
    {
        LineBuffer {
            position_array: copy_vec(position_array),
            color_array: copy_vec(color_array),
            index_array: copy_vec(index_array),
        }
    }
}

} // verus!
