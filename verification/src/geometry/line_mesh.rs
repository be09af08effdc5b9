use vstd::prelude::*;
use std::collections::HashSet;
use super::buffers::LineBuffer;
use super::triangle_mesh::{MeshVertex, TriangleMesh, copy_vertices};

verus! {

broadcast use vstd::std_specs::hash::group_hash_axioms;

/// A line mesh: vertices and pairs of vertex indices, one pair per segment.
#[derive(Debug, Clone)]
pub struct LineMesh<P> {
    pub vertices: Vec<MeshVertex<P>>,
    pub indices: Vec<u32>,
}

/// An edge with its smaller index first.
pub open spec fn norm_edge(a: u32, b: u32) -> (u32, u32) {
    if a < b { (a, b) } else { (b, a) }
}

/// Edge `k` (0, 1 or 2) of triangle `t`, whose vertices are `3t`, `3t+1`
/// and `3t+2` (as `u32` indices).
pub open spec fn triangle_edge(t: int, k: int) -> (u32, u32) {
    let i0 = (3 * t) as u32;
    let i1 = (3 * t + 1) as u32;
    let i2 = (3 * t + 2) as u32;
    if k == 0 {
        norm_edge(i0, i1)
    } else if k == 1 {
        norm_edge(i1, i2)
    } else {
        norm_edge(i0, i2)
    }
}

/// The edges of the first `tris` triangles.
pub open spec fn edges_of(tris: int) -> Set<(u32, u32)> {
    Set::new(|e: (u32, u32)| exists|t: int, k: int| 0 <= t < tris && 0 <= k < 3 && e == triangle_edge(t, k))
}

/// The edges of a mesh of `n` vertices: those of its `n / 3` whole triangles.
pub open spec fn mesh_edges(n: int) -> Set<(u32, u32)> {
    edges_of(n / 3)
}

/// The index pairs of a line index list.
pub open spec fn index_pairs(indices: Seq<u32>) -> Seq<(u32, u32)> {
    Seq::new(indices.len() / 2, |k: int| (indices[2 * k], indices[2 * k + 1]))
}

/// The key under which an edge is kept in a hash set.
pub open spec fn edge_key(e: (u32, u32)) -> u64 {
    ((e.0 as u64) << 32u64) | (e.1 as u64)
}

fn encode_edge(a: u32, b: u32) -> (k: u64)
    ensures
        k == edge_key((a, b)),
{
    ((a as u64) << 32u64) | (b as u64)
}

fn decode_edge(k: u64) -> (e: (u32, u32))
    ensures
        forall|a: u32, b: u32| k == edge_key((a, b)) ==> e == (a, b),
{
    let a = (k >> 32u64) as u32;
    let b = k as u32;
    assert forall|x: u32, y: u32| k == edge_key((x, y)) implies (a, b) == (x, y) by {
        assert((((x as u64) << 32u64) | (y as u64)) >> 32u64 == x as u64) by (bit_vector);
        assert((((x as u64) << 32u64) | (y as u64)) as u32 == y) by (bit_vector);
    }
    (a, b)
}

proof fn lemma_edge_key_injective(e1: (u32, u32), e2: (u32, u32))
    requires
        edge_key(e1) == edge_key(e2),
    ensures
        e1 == e2,
{
    let (a, b) = e1;
    let (c, d) = e2;
    assert((((a as u64) << 32u64) | (b as u64)) >> 32u64 == a as u64) by (bit_vector);
    assert((((a as u64) << 32u64) | (b as u64)) as u32 == b) by (bit_vector);
    assert((((c as u64) << 32u64) | (d as u64)) >> 32u64 == c as u64) by (bit_vector);
    assert((((c as u64) << 32u64) | (d as u64)) as u32 == d) by (bit_vector);
}

fn normalized(a: u32, b: u32) -> (e: (u32, u32))
    ensures
        e == norm_edge(a, b),
{
    if a < b { (a, b) } else { (b, a) }
}

impl<P: Copy> LineMesh<P> {
    /// The wireframe of a triangle mesh: the same vertices, and one segment
    /// for each distinct edge of its whole triangles, each edge with its
    /// smaller index first.  The segments come in the order of a hash set,
    /// which this does not fix.
    pub fn from_triangle_mesh(mesh: &TriangleMesh<P>) -> (l: LineMesh<P>)
        ensures
            l.vertices@ == mesh.vertices@,
            l.indices@.len() % 2 == 0,
            index_pairs(l.indices@).no_duplicates(),
            index_pairs(l.indices@).to_set() == mesh_edges(mesh.vertices@.len() as int),
    {
        let vertices = copy_vertices(&mesh.vertices);
        let n = mesh.vertices.len();
        let tris = n / 3;
        let mut edges: HashSet<u64> = HashSet::new();
        let mut t: usize = 0;
        while t < tris
            invariant
                t <= tris,
                tris == n / 3,
                edges@ == edges_of(t as int).map(|e: (u32, u32)| edge_key(e)),
            decreases tris - t,
        {
            let i = 3 * t;
            let idx0 = i as u32;
            let idx1 = (i + 1) as u32;
            let idx2 = (i + 2) as u32;
            let e0 = normalized(idx0, idx1);
            let e1 = normalized(idx1, idx2);
            let e2 = normalized(idx0, idx2);
            edges.insert(encode_edge(e0.0, e0.1));
            edges.insert(encode_edge(e1.0, e1.1));
            edges.insert(encode_edge(e2.0, e2.1));
            proof {
                let nt = (t + 1) as int;
                assert(e0 == triangle_edge(t as int, 0));
                assert(e1 == triangle_edge(t as int, 1));
                assert(e2 == triangle_edge(t as int, 2));
                let target = edges_of(nt).map(|e: (u32, u32)| edge_key(e));
                assert forall|key: u64| #[trigger] edges@.contains(key) <==> target.contains(key) by {
                    if edges@.contains(key) {
                        if key == edge_key(e0) {
                            assert(edges_of(nt).contains(e0));
                        } else if key == edge_key(e1) {
                            assert(edges_of(nt).contains(e1));
                        } else if key == edge_key(e2) {
                            assert(edges_of(nt).contains(e2));
                        } else {
                            let e = choose|e: (u32, u32)| edges_of(t as int).contains(e) && edge_key(e) == key;
                            assert(edges_of(nt).contains(e));
                        }
                    }
                    if target.contains(key) {
                        let e = choose|e: (u32, u32)| edges_of(nt).contains(e) && edge_key(e) == key;
                        let (tt, kk) = choose|tt: int, kk: int| 0 <= tt < nt && 0 <= kk < 3 && e == triangle_edge(tt, kk);
                        if tt < t {
                            assert(edges_of(t as int).contains(e));
                        }
                    }
                }
                assert(edges@ =~= target);
            }
            t += 1;
        }
        let mut indices: Vec<u32> = Vec::new();
        let ghost all = edges_of(tris as int);
        assert forall|q: (u32, u32)| #[trigger] all.contains(q) implies edges@.contains(edge_key(q)) by {}
        for key in it: edges.iter()
            invariant
                edges@ == all.map(|e: (u32, u32)| edge_key(e)),
                it.seq().unref().to_set() == edges@,
                it.seq().unref().no_duplicates(),
                indices@.len() == 2 * it.index(),
                forall|k: int| 0 <= k < it.index() ==> edge_key(#[trigger] index_pairs(indices@)[k]) == it.seq().unref()[k],
                forall|k: int| 0 <= k < it.index() ==> all.contains(#[trigger] index_pairs(indices@)[k]),
                index_pairs(indices@).no_duplicates(),
                forall|q: (u32, u32)| #[trigger] all.contains(q) ==> edges@.contains(edge_key(q)),
                it.index() == it.seq().len() ==> forall|q: (u32, u32)| #[trigger] all.contains(q) ==> index_pairs(indices@).contains(q),
        {
            let ghost ks = it.seq().unref();
            let ghost idx = it.index();
            assert(ks[idx] == *key);
            assert(ks.to_set().contains(*key));
            assert(edges@.contains(*key));
            let (a, b) = decode_edge(*key);
            let ghost e = choose|e: (u32, u32)| all.contains(e) && edge_key(e) == *key;
            assert(e == (a, b));
            let ghost old_pairs = index_pairs(indices@);
            let ghost old_ind = indices@;
            indices.push(a);
            indices.push(b);
            assert(indices@ == old_ind.push(a).push(b));
            let ghost np = index_pairs(indices@);
            assert(np.len() == idx + 1);
            assert forall|k: int| 0 <= k < idx + 1 implies #[trigger] np[k] == if k < idx { old_pairs[k] } else { (a, b) } by {
                if k < idx {
                    assert(indices@[2 * k] == old_ind[2 * k]);
                    assert(indices@[2 * k + 1] == old_ind[2 * k + 1]);
                }
            }
            assert(np.no_duplicates()) by {
                assert forall|x: int, y: int| 0 <= x < y < np.len() implies np[x] != np[y] by {
                    if y == idx {
                        if np[x] == np[y] {
                            assert(edge_key(np[x]) == ks[x]);
                            assert(ks[x] == ks[idx]);
                        }
                    } else {
                        assert(np[x] == old_pairs[x] && np[y] == old_pairs[y]);
                    }
                }
            }
            assert forall|k: int| 0 <= k < idx + 1 implies edge_key(#[trigger] np[k]) == ks[k] by {}
            assert forall|q: (u32, u32)| #[trigger] all.contains(q) && idx + 1 == ks.len() implies np.contains(q) by {
                assert(edges@.contains(edge_key(q)));
                assert(ks.to_set().contains(edge_key(q)));
                let k = choose|k: int| 0 <= k < ks.len() && ks[k] == edge_key(q);
                assert(edge_key(np[k]) == edge_key(q));
                lemma_edge_key_injective(np[k], q);
            }
        }
        let ghost pairs = index_pairs(indices@);
        assert forall|q: (u32, u32)| pairs.to_set().contains(q) implies #[trigger] all.contains(q) by {
            let k = choose|k: int| 0 <= k < pairs.len() && pairs[k] == q;
        }
        assert forall|q: (u32, u32)| #[trigger] all.contains(q) implies pairs.to_set().contains(q) by {
            assert(pairs.contains(q));
        }
        assert(pairs.to_set() =~= all);
        LineMesh { vertices, indices }
    }

    /// Keeps only the segments that `is_orthographic` accepts (in the
    /// application: segments parallel to a coordinate axis), in their order.
    /// Index pairs that point past the vertices, and a last unpaired index,
    /// are dropped.
    pub fn remove_nonorthographic_lines<F: Fn(P, P) -> bool>(&mut self, is_orthographic: F)
        requires
            forall|a: P, b: P| is_orthographic.requires((a, b)),
        ensures
            final(self).vertices@ == old(self).vertices@,
            exists|keep: Seq<bool>| {
                &&& keep.len() == old(self).indices@.len() / 2
                &&& forall|k: int| 0 <= k < keep.len() && valid_pair(old(self).indices@, old(self).vertices@.len() as int, k)
                    ==> is_orthographic.ensures((pair_position(old(self).indices@, old(self).vertices@, k, 0),
                    pair_position(old(self).indices@, old(self).vertices@, k, 1)), #[trigger] keep[k])
                &&& final(self).indices@ == retained(old(self).indices@, old(self).vertices@.len() as int, keep, keep.len() as int)
            },
    {
        let ghost idx0 = self.indices@;
        let ghost nv = self.vertices@.len() as int;
        let ghost mut keep: Seq<bool> = Seq::empty();
        let mut new_indices: Vec<u32> = Vec::new();
        let npairs = self.indices.len() / 2;
        let mut k: usize = 0;
        while k < npairs
            invariant
                k <= npairs,
                npairs == idx0.len() / 2,
                idx0 == self.indices@,
                nv == self.vertices@.len(),
                forall|a: P, b: P| is_orthographic.requires((a, b)),
                keep.len() == k,
                forall|j: int| 0 <= j < k && valid_pair(idx0, nv, j)
                    ==> is_orthographic.ensures((pair_position(idx0, self.vertices@, j, 0),
                    pair_position(idx0, self.vertices@, j, 1)), #[trigger] keep[j]),
                new_indices@ == retained(idx0, nv, keep, k as int),
            decreases npairs - k,
        {
            let len = self.indices.len();
            assert(2 * k + 1 < len) by (nonlinear_arith)
                requires
                    k < npairs,
                    npairs == len / 2,
            ;
            let a = self.indices[2 * k];
            let b = self.indices[2 * k + 1];
            let ghost prev = keep;
            if (a as usize) < self.vertices.len() && (b as usize) < self.vertices.len() {
                let p0 = self.vertices[a as usize].position;
                let p1 = self.vertices[b as usize].position;
                let ok = is_orthographic(p0, p1);
                proof { keep = keep.push(ok); }
                if ok {
                    new_indices.push(a);
                    new_indices.push(b);
                }
            } else {
                proof { keep = keep.push(false); }
            }
            assert(keep.take(k as int) =~= prev);
            proof { lemma_retained_prefix(idx0, nv, prev, keep, k as int); }
            k += 1;
        }
        self.indices = new_indices;
    }

    /// The render buffer of this mesh: positions and colours in vertex order,
    /// and the segment indices.
    pub fn to_line_buffer(&self) -> (b: LineBuffer<P>)
        ensures
            b.position_array@.len() == self.vertices@.len(),
            b.color_array@.len() == self.vertices@.len(),
            forall|i: int| 0 <= i < self.vertices@.len() ==> #[trigger] b.position_array@[i] == self.vertices@[i].position,
            forall|i: int| 0 <= i < self.vertices@.len() ==> #[trigger] b.color_array@[i] == self.vertices@[i].color,
            b.index_array@ == self.indices@,
    {
        let mut position_array: Vec<P> = Vec::new();
        let mut color_array: Vec<P> = Vec::new();
        let mut i: usize = 0;
        while i < self.vertices.len()
            invariant
                i <= self.vertices@.len(),
                position_array@.len() == i,
                color_array@.len() == i,
                forall|j: int| 0 <= j < i ==> #[trigger] position_array@[j] == self.vertices@[j].position,
                forall|j: int| 0 <= j < i ==> #[trigger] color_array@[j] == self.vertices@[j].color,
            decreases self.vertices.len() - i,
        {
            let v = self.vertices[i];
            position_array.push(v.position);
            color_array.push(v.color);
            i += 1;
        }
        let b = LineBuffer::new(&position_array, &color_array, &self.indices);
        b
    }
}

/// Pair `k` of `idx` indexes two existing vertices.
pub open spec fn valid_pair(idx: Seq<u32>, n: int, k: int) -> bool {
    (idx[2 * k] as int) < n && (idx[2 * k + 1] as int) < n
}

/// The position of end `e` (0 or 1) of segment `k`.
pub open spec fn pair_position<P>(idx: Seq<u32>, v: Seq<MeshVertex<P>>, k: int, e: int) -> P {
    v[idx[2 * k + e] as int].position
}

/// The indices of the first `k` segments that are valid and kept.
pub open spec fn retained(idx: Seq<u32>, n: int, keep: Seq<bool>, k: int) -> Seq<u32>
    decreases k,
{
    if k <= 0 {
        Seq::empty()
    } else {
        let prev = retained(idx, n, keep, k - 1);
        if valid_pair(idx, n, k - 1) && keep[k - 1] {
            prev.push(idx[2 * (k - 1)]).push(idx[2 * (k - 1) + 1])
        } else {
            prev
        }
    }
}

/// `retained` depends only on the decisions for the segments it covers.
proof fn lemma_retained_prefix(idx: Seq<u32>, n: int, a: Seq<bool>, b: Seq<bool>, k: int)
    requires
        0 <= k,
        k <= a.len(),
        k <= b.len(),
        forall|j: int| 0 <= j < k ==> a[j] == b[j],
    ensures
        retained(idx, n, a, k) == retained(idx, n, b, k),
    decreases k,
{
    if k > 0 {
        lemma_retained_prefix(idx, n, a, b, k - 1);
    }
}

proof fn lemma_retained_valid(idx: Seq<u32>, n: int, keep: Seq<bool>, k: int)
    ensures
        retained(idx, n, keep, k).len() % 2 == 0,
        forall|i: int| 0 <= i < retained(idx, n, keep, k).len() ==> (#[trigger] retained(idx, n, keep, k)[i] as int) < n,
    decreases k,
{
    if k > 0 {
        lemma_retained_valid(idx, n, keep, k - 1);
    }
}

proof fn lemma_retained_all_kept(r: Seq<u32>, n: int, keep: Seq<bool>, k: int)
    requires
        0 <= k <= keep.len(),
        2 * keep.len() <= r.len(),
        forall|i: int| 0 <= i < r.len() ==> (#[trigger] r[i] as int) < n,
        forall|j: int| 0 <= j < keep.len() ==> #[trigger] keep[j],
    ensures
        retained(r, n, keep, k) == r.take(2 * k),
    decreases k,
{
    if k > 0 {
        lemma_retained_all_kept(r, n, keep, k - 1);
        assert(r.take(2 * k) =~= r.take(2 * (k - 1)).push(r[2 * (k - 1)]).push(r[2 * (k - 1) + 1]));
    } else {
        assert(r.take(0) =~= Seq::<u32>::empty());
    }
}

/// Cleaning up a cleaned line mesh again, with a test that accepts again
/// the segments it accepted (as a test that depends only on the two
/// positions does), changes nothing: `remove_nonorthographic_lines` is
/// idempotent.  `keep` are the first pass's decisions and `again` the
/// second pass's, one per segment left after the first.
pub proof fn law_cleanup_idempotent(idx: Seq<u32>, n: int, keep: Seq<bool>, again: Seq<bool>)
    requires
        again.len() == retained(idx, n, keep, keep.len() as int).len() / 2,
        forall|j: int| 0 <= j < again.len() ==> #[trigger] again[j],
    ensures
        retained(retained(idx, n, keep, keep.len() as int), n, again, again.len() as int)
            == retained(idx, n, keep, keep.len() as int),
{
    let r = retained(idx, n, keep, keep.len() as int);
    lemma_retained_valid(idx, n, keep, keep.len() as int);
    lemma_retained_all_kept(r, n, again, again.len() as int);
    assert(r.take(2 * (again.len() as int)) =~= r);
}

} // verus!
