use vstd::prelude::*;
use super::triangle_mesh::{MeshVertex, TriangleMesh};

verus! {

/// A selection of vertices of a mesh, built up and then edited in a chain:
/// `mesh.vertex_selection().all().set_color(c)`.
#[derive(Debug)]
pub struct VertexSelection<'a, P> {
    /// The mesh whose vertices are selected.
    pub mesh: &'a mut TriangleMesh<P>,
    /// The selected vertex indices, each once, in the order they were added.
    pub indices: Vec<usize>,
}

impl<P: Copy> TriangleMesh<P> {
    /// An empty selection of this mesh's vertices.
    pub fn vertex_selection(&mut self) -> (s: VertexSelection<'_, P>)
        ensures
            s.wf(),
            s.mesh.vertices@ == old(self).vertices@,
            *final(s.mesh) == *final(self),
            s.indices@ == Seq::<usize>::empty(),
    {
        VertexSelection::new(self)
    }
}

/// The vertices after applying `f` to the selected ones.
pub open spec fn recolored<P>(v: Seq<MeshVertex<P>>, sel: Seq<usize>, color: P) -> Seq<MeshVertex<P>> {
    Seq::new(v.len(), |i: int| if sel.contains(i as usize) { MeshVertex { color, ..v[i] } } else { v[i] })
}

/// The indices that `add` appends: in vertex order, those accepted by the
/// decisions `keep` and not selected yet.
pub open spec fn added(sel: Seq<usize>, keep: Seq<bool>, k: int) -> Seq<usize>
    decreases k,
{
    if k <= 0 {
        Seq::empty()
    } else {
        let prev = added(sel, keep, k - 1);
        if keep[k - 1] && !sel.contains((k - 1) as usize) { prev.push((k - 1) as usize) } else { prev }
    }
}

proof fn lemma_added_prefix(sel: Seq<usize>, a: Seq<bool>, b: Seq<bool>, k: int)
    requires
        0 <= k <= a.len(),
        k <= b.len(),
        forall|j: int| 0 <= j < k ==> a[j] == b[j],
    ensures
        added(sel, a, k) == added(sel, b, k),
    decreases k,
{
    if k > 0 {
        lemma_added_prefix(sel, a, b, k - 1);
    }
}

proof fn lemma_added_bounds(sel: Seq<usize>, keep: Seq<bool>, k: int)
    requires
        0 <= k <= keep.len(),
        k <= usize::MAX + 1,
    ensures
        forall|j: int| 0 <= j < added(sel, keep, k).len() ==> (added(sel, keep, k)[j] as int) < k,
        forall|j: int| 0 <= j < added(sel, keep, k).len() ==> !sel.contains(#[trigger] added(sel, keep, k)[j]),
        added(sel, keep, k).no_duplicates(),
    decreases k,
{
    if k > 0 {
        lemma_added_bounds(sel, keep, k - 1);
    }
}

impl<'a, P: Copy> VertexSelection<'a, P> {
    /// Indices are distinct and name vertices of the mesh.
    pub open spec fn wf(&self) -> bool {
        &&& self.indices@.no_duplicates()
        &&& forall|i: int| 0 <= i < self.indices@.len() ==> (#[trigger] self.indices@[i] as int) < self.mesh.vertices@.len()
    }

    pub fn new(mesh: &'a mut TriangleMesh<P>) -> (s: Self)
        ensures
            s.wf(),
            s.mesh.vertices@ == old(mesh).vertices@,
            *final(s.mesh) == *final(mesh),
            s.indices@ == Seq::<usize>::empty(),
    {
        VertexSelection { mesh, indices: Vec::new() }
    }

    /// Adds, in vertex order, the vertices that `predicate` accepts and that
    /// are not selected yet.
    pub fn add<F: Fn(&MeshVertex<P>) -> bool>(self, predicate: F) -> (s: Self)
        requires
            self.wf(),
            forall|v: &MeshVertex<P>| predicate.requires((v,)),
        ensures
            s.wf(),
            s.mesh.vertices@ == old(self.mesh).vertices@,
            *final(s.mesh) == *final(self.mesh),
            exists|keep: Seq<bool>| {
                &&& keep.len() == old(self.mesh).vertices@.len()
                &&& forall|i: int| 0 <= i < keep.len() ==> predicate.ensures((&old(self.mesh).vertices@[i],), #[trigger] keep[i])
                &&& s.indices@ == self.indices@ + added(self.indices@, keep, keep.len() as int)
            },
    {
        let ghost sel0 = self.indices@;
        let ghost verts = self.mesh.vertices@;
        let ghost mut keep: Seq<bool> = Seq::empty();
        let mut s = self;
        let n = s.mesh.vertices.len();
        let mut i: usize = 0;
        while i < n
            invariant
                i <= n,
                n == verts.len(),
                s.mesh.vertices@ == verts,
                *final(s.mesh) == *final(self.mesh),
                forall|v: &MeshVertex<P>| predicate.requires((v,)),
                keep.len() == i,
                forall|j: int| 0 <= j < i ==> predicate.ensures((&verts[j],), #[trigger] keep[j]),
                s.indices@ == sel0 + added(sel0, keep, i as int),
            decreases n - i,
        {
            let ok = predicate(&s.mesh.vertices[i]);
            let ghost prev = keep;
            proof { keep = keep.push(ok); }
            if ok && !contains_index(&s.indices, i) {
                s.indices.push(i);
            }
            proof {
                assert(keep.take(i as int) =~= prev);
                lemma_added_prefix(sel0, prev, keep, i as int);
                if ok {
                    if sel0.contains(i) {
                        let j = choose|j: int| 0 <= j < sel0.len() && sel0[j] == i;
                        assert((sel0 + added(sel0, keep, i as int))[j] == i);
                        assert(s.indices@ == sel0 + added(sel0, keep, i + 1));
                    } else {
                        lemma_added_bounds(sel0, keep, i as int);
                        assert(!added(sel0, keep, i as int).contains(i)) by {
                            if added(sel0, keep, i as int).contains(i) {
                                let j = choose|j: int| 0 <= j < added(sel0, keep, i as int).len() && added(sel0, keep, i as int)[j] == i;
                            }
                        }
                        assert(s.indices@ =~= sel0 + added(sel0, keep, i + 1));
                    }
                }
            }
            i += 1;
        }
        proof {
            lemma_added_bounds(sel0, keep, n as int);
            let a = added(sel0, keep, n as int);
            assert forall|x: int, y: int| 0 <= x < y < s.indices@.len() implies s.indices@[x] != s.indices@[y] by {
                if y >= sel0.len() && x < sel0.len() {
                    assert(!sel0.contains(a[y - sel0.len()]));
                } else if x >= sel0.len() {
                    assert(a[x - sel0.len()] != a[y - sel0.len()]);
                } else {
                    assert(sel0[x] != sel0[y]);
                }
            }
        }
        s
    }

    /// Selects every vertex, in order.
    pub fn all(self) -> (s: Self)
        ensures
            s.wf(),
            s.mesh.vertices@ == old(self.mesh).vertices@,
            *final(s.mesh) == *final(self.mesh),
            s.indices@ == Seq::new(old(self.mesh).vertices@.len(), |i: int| i as usize),
    {
        let mut s = self;
        let n = s.mesh.vertices.len();
        let mut indices: Vec<usize> = Vec::new();
        let mut i: usize = 0;
        while i < n
            invariant
                i <= n,
                indices@ == Seq::new(i as nat, |j: int| j as usize),
            decreases n - i,
        {
            indices.push(i);
            assert(indices@ =~= Seq::new((i + 1) as nat, |j: int| j as usize));
            i += 1;
        }
        s.indices = indices;
        s
    }

    /// The number of selected vertices.
    pub fn count(&self) -> (n: usize)
        ensures
            n == self.indices@.len(),
    {
        self.indices.len()
    }

    /// Whether nothing is selected.
    pub fn is_empty(&self) -> (b: bool)
        ensures
            b == (self.indices@.len() == 0),
    {
        self.indices.len() == 0
    }

    /// The positions of the selected vertices, in selection order.
    pub fn selected_positions(&self) -> (ps: Vec<P>)
        requires
            self.wf(),
        ensures
            ps@.len() == self.indices@.len(),
            forall|k: int| 0 <= k < ps@.len() ==> #[trigger] ps@[k] == old(self.mesh).vertices@[self.indices@[k] as int].position,
    {
        let mut ps: Vec<P> = Vec::new();
        let mut k: usize = 0;
        while k < self.indices.len()
            invariant
                self.wf(),
                k <= self.indices@.len(),
                ps@.len() == k,
                forall|j: int| 0 <= j < k ==> #[trigger] ps@[j] == self.mesh.vertices@[self.indices@[j] as int].position,
            decreases self.indices.len() - k,
        {
            let idx = self.indices[k];
            ps.push(self.mesh.vertices[idx].position);
            k += 1;
        }
        ps
    }

    /// Sets the colour of every selected vertex.
    pub fn set_color(self, color: P) -> (s: Self)
        requires
            self.wf(),
        ensures
            s.wf(),
            s.indices@ == self.indices@,
            *final(s.mesh) == *final(self.mesh),
            s.mesh.vertices@ == recolored(old(self.mesh).vertices@, self.indices@, color),
    {
        let ghost v0 = self.mesh.vertices@;
        let n = self.mesh.vertices.len();
        let mut s = self;
        let mut k: usize = 0;
        while k < s.indices.len()
            invariant
                k <= s.indices@.len(),
                s.indices@ == self.indices@,
                *final(s.mesh) == *final(self.mesh),
                self.wf(),
                s.mesh.vertices@.len() == v0.len(),
                v0.len() == n,
                v0 == self.mesh.vertices@,
                forall|i: int| 0 <= i < v0.len() ==> #[trigger] s.mesh.vertices@[i]
                    == if s.indices@.take(k as int).contains(i as usize) { MeshVertex { color, ..v0[i] } } else { v0[i] },
            decreases s.indices.len() - k,
        {
            let idx = s.indices[k];
            let mut v = s.mesh.vertices[idx];
            v.color = color;
            let ghost before = s.mesh.vertices@;
            let ghost t0 = s.indices@.take(k as int);
            assert(forall|i: int| 0 <= i < v0.len() ==> #[trigger] before[i]
                == if t0.contains(i as usize) { MeshVertex { color, ..v0[i] } } else { v0[i] });
            s.mesh.vertices.set(idx, v);
            proof {
                let t1 = s.indices@.take(k + 1);
                assert(t1 =~= t0.push(idx));
                assert forall|i: int| 0 <= i < v0.len() implies #[trigger] s.mesh.vertices@[i]
                    == if t1.contains(i as usize) { MeshVertex { color, ..v0[i] } } else { v0[i] } by {
                    lemma_push_contains(t0, idx, i as usize);
                    assert(before[i] == if t0.contains(i as usize) { MeshVertex { color, ..v0[i] } } else { v0[i] });
                    if i != idx as int {
                        assert(s.mesh.vertices@[i] == before[i]);
                    }
                }
            }
            k += 1;
        }
        assert(s.indices@.take(k as int) =~= s.indices@);
        assert(s.mesh.vertices@ =~= recolored(v0, self.indices@, color));
        s
    }

    /// Replaces the position `p` of every selected vertex by `f(p)`; the
    /// application translates and scales selections this way.
    pub fn transform_positions<F: Fn(P) -> P>(self, f: F) -> (s: Self)
        requires
            self.wf(),
            forall|p: P| f.requires((p,)),
        ensures
            s.wf(),
            s.indices@ == self.indices@,
            *final(s.mesh) == *final(self.mesh),
            s.mesh.vertices@.len() == old(self.mesh).vertices@.len(),
            forall|i: int| 0 <= i < old(self.mesh).vertices@.len() && !self.indices@.contains(i as usize)
                ==> #[trigger] s.mesh.vertices@[i] == old(self.mesh).vertices@[i],
            forall|i: int| 0 <= i < old(self.mesh).vertices@.len() && self.indices@.contains(i as usize) ==> {
                &&& #[trigger] s.mesh.vertices@[i].color == old(self.mesh).vertices@[i].color
                &&& f.ensures((old(self.mesh).vertices@[i].position,), s.mesh.vertices@[i].position)
            },
    {
        let ghost v0 = self.mesh.vertices@;
        assert(v0 == old(self.mesh).vertices@);
        let n = self.mesh.vertices.len();
        let mut s = self;
        let mut k: usize = 0;
        while k < s.indices.len()
            invariant
                k <= s.indices@.len(),
                s.indices@ == self.indices@,
                *final(s.mesh) == *final(self.mesh),
                self.wf(),
                forall|p: P| f.requires((p,)),
                s.mesh.vertices@.len() == v0.len(),
                v0.len() == n,
                v0 == self.mesh.vertices@,
                forall|i: int| 0 <= i < v0.len() && !s.indices@.take(k as int).contains(i as usize)
                    ==> #[trigger] s.mesh.vertices@[i] == v0[i],
                forall|i: int| 0 <= i < v0.len() && s.indices@.take(k as int).contains(i as usize) ==> {
                    &&& #[trigger] s.mesh.vertices@[i].color == v0[i].color
                    &&& f.ensures((v0[i].position,), s.mesh.vertices@[i].position)
                },
            decreases s.indices.len() - k,
        {
            let idx = s.indices[k];
            let mut v = s.mesh.vertices[idx];
            assert(!s.indices@.take(k as int).contains(idx)) by {
                if s.indices@.take(k as int).contains(idx) {
                    let j = choose|j: int| 0 <= j < k && s.indices@.take(k as int)[j] == idx;
                    assert(s.indices@[j] == s.indices@[k as int]);
                }
            }
            let p = f(v.position);
            v.position = p;
            let ghost before = s.mesh.vertices@;
            let ghost t0 = s.indices@.take(k as int);
            assert(forall|i: int| 0 <= i < v0.len() && !t0.contains(i as usize) ==> #[trigger] before[i] == v0[i]);
            assert(forall|i: int| 0 <= i < v0.len() && t0.contains(i as usize) ==> #[trigger] before[i].color == v0[i].color
                && f.ensures((v0[i].position,), before[i].position));
            assert(before[idx as int] == v0[idx as int]);
            s.mesh.vertices.set(idx, v);
            proof {
                let t1 = s.indices@.take(k + 1);
                assert(t1 =~= t0.push(idx));
                assert forall|i: int| 0 <= i < v0.len() implies (!t1.contains(i as usize) ==> #[trigger] s.mesh.vertices@[i] == v0[i])
                    && (t1.contains(i as usize) ==> s.mesh.vertices@[i].color == v0[i].color
                    && f.ensures((v0[i].position,), s.mesh.vertices@[i].position)) by {
                    lemma_push_contains(t0, idx, i as usize);
                    if i != idx as int {
                        assert(s.mesh.vertices@[i] == before[i]);
                        if t0.contains(i as usize) {
                            assert(before[i].color == v0[i].color);
                        } else {
                            assert(before[i] == v0[i]);
                        }
                    }
                }
            }
            k += 1;
        }
        assert(s.indices@.take(k as int) =~= s.indices@);
        assert forall|i: int| 0 <= i < v0.len() && self.indices@.contains(i as usize) implies {
            &&& #[trigger] s.mesh.vertices@[i].color == v0[i].color
            &&& f.ensures((v0[i].position,), s.mesh.vertices@[i].position)
        } by {
            assert(s.indices@.take(k as int).contains(i as usize));
        }
        s
    }
}

proof fn lemma_push_contains(s: Seq<usize>, a: usize, x: usize)
    ensures
        s.push(a).contains(x) <==> s.contains(x) || x == a,
{
    if s.contains(x) {
        let j = choose|j: int| 0 <= j < s.len() && s[j] == x;
        assert(s.push(a)[j] == x);
    }
    if x == a {
        assert(s.push(a)[s.len() as int] == a);
    }
    if s.push(a).contains(x) {
        let j = choose|j: int| 0 <= j < s.len() + 1 && s.push(a)[j] == x;
        if j < s.len() {
            assert(s[j] == x);
        }
    }
}

/// Whether `i` is among the selected indices.
fn contains_index(v: &Vec<usize>, i: usize) -> (b: bool)
    ensures
        b == v@.contains(i),
{
    let mut k: usize = 0;
    while k < v.len()
        invariant
            k <= v@.len(),
            forall|j: int| 0 <= j < k ==> v@[j] != i,
        decreases v.len() - k,
    {
        if v[k] == i {
            return true;
        }
        k += 1;
    }
    false
}


/// Colouring a selection changes the colour of exactly the selected
/// vertices and moves no vertex.
pub proof fn law_set_color_touches_only_selected_colors<P>(v: Seq<MeshVertex<P>>, sel: Seq<usize>, color: P, i: int)
    requires
        0 <= i < v.len(),
    ensures
        recolored(v, sel, color).len() == v.len(),
        recolored(v, sel, color)[i].position == v[i].position,
        sel.contains(i as usize) ==> recolored(v, sel, color)[i].color == color,
        !sel.contains(i as usize) ==> recolored(v, sel, color)[i] == v[i],
{
}

/// Adding with the same predicate again selects nothing new: the vertices
/// it accepts are already selected.
pub proof fn law_add_twice_adds_nothing(sel: Seq<usize>, keep: Seq<bool>)
    requires
        forall|i: int| 0 <= i < keep.len() ==> (#[trigger] keep[i] ==> sel.contains(i as usize)),
    ensures
        added(sel, keep, keep.len() as int) == Seq::<usize>::empty(),
{
    lemma_added_all_selected(sel, keep, keep.len() as int);
}

proof fn lemma_added_all_selected(sel: Seq<usize>, keep: Seq<bool>, k: int)
    requires
        0 <= k <= keep.len(),
        forall|i: int| 0 <= i < keep.len() ==> (#[trigger] keep[i] ==> sel.contains(i as usize)),
    ensures
        added(sel, keep, k) == Seq::<usize>::empty(),
    decreases k,
{
    if k > 0 {
        lemma_added_all_selected(sel, keep, k - 1);
    }
}

/// A selection never holds more vertices than its mesh has: its indices are
/// distinct and each names a vertex of the mesh.
pub proof fn law_selection_within_mesh<'a, P: Copy>(s: &VertexSelection<'a, P>)
    requires
        s.wf(),
    ensures
        s.indices@.len() <= old(s.mesh).vertices@.len(),
{
    let n = s.mesh.vertices@.len() as int;
    let ints = s.indices@.map_values(|u: usize| u as int);
    assert(ints.no_duplicates()) by {
        assert forall|a: int, b: int| 0 <= a < ints.len() && 0 <= b < ints.len() && a != b implies ints[a] != ints[b] by {
            assert(s.indices@[a] != s.indices@[b]);
        }
    }
    ints.unique_seq_to_set();
    vstd::set_lib::lemma_int_range(0, n);
    assert(ints.to_set().subset_of(vstd::set_lib::set_int_range(0, n))) by {
        assert forall|v: int| ints.to_set().contains(v) implies vstd::set_lib::set_int_range(0, n).contains(v) by {
            let k = choose|k: int| 0 <= k < ints.len() && ints[k] == v;
            assert((s.indices@[k] as int) < n);
        }
    }
    vstd::set_lib::lemma_len_subset(ints.to_set(), vstd::set_lib::set_int_range(0, n));
}

} // verus!
