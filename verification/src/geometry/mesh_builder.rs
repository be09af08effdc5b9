use vstd::prelude::*;
use super::triangle_mesh::{MeshVertex, TriangleMesh};
use crate::text::{chars_eq, chars_of};

verus! {

broadcast use vstd::string::group_string_axioms;

/// A library of meshes registered under names.
pub struct MeshBuilder<P> {
    library: Vec<(String, TriangleMesh<P>)>,
}

/// Models of the library's entries: names and vertex lists.
pub open spec fn library_models<P>(v: Seq<(String, TriangleMesh<P>)>) -> Seq<(Seq<char>, Seq<MeshVertex<P>>)> {
    v.map_values(|e: (String, TriangleMesh<P>)| (e.0@, e.1.vertices@))
}

/// An index at which `e` holds the name `k`.
pub open spec fn library_index<P>(e: Seq<(Seq<char>, Seq<MeshVertex<P>>)>, k: Seq<char>) -> int {
    choose|i: int| 0 <= i < e.len() && e[i].0 == k
}

impl<P> MeshBuilder<P> {
    /// Every library value keeps its names distinct.
    #[verifier::type_invariant]
    spec fn library_invariant(self) -> bool {
        let e = library_models(self.library@);
        forall|i: int, j: int| 0 <= i < j < e.len() ==> e[i].0 != e[j].0
    }
}

impl<P: Copy> MeshBuilder<P> {
    pub closed spec fn entries(&self) -> Seq<(Seq<char>, Seq<MeshVertex<P>>)> {
        library_models(self.library@)
    }

    /// Names are distinct.
    pub open spec fn wf(&self) -> bool {
        forall|i: int, j: int| 0 <= i < j < self.entries().len() ==> self.entries()[i].0 != self.entries()[j].0
    }

    /// The library as a map from names to vertex lists.
    pub open spec fn view(&self) -> Map<Seq<char>, Seq<MeshVertex<P>>> {
        Map::new(
            |k: Seq<char>| exists|i: int| 0 <= i < self.entries().len() && self.entries()[i].0 == k,
            |k: Seq<char>| self.entries()[library_index(self.entries(), k)].1,
        )
    }

    /// An empty library.
    pub fn new() -> (b: Self)
        ensures
            b.wf(),
            b.view() == Map::<Seq<char>, Seq<MeshVertex<P>>>::empty(),
    {
        let b = MeshBuilder { library: Vec::new() };
        assert(b.view() =~= Map::<Seq<char>, Seq<MeshVertex<P>>>::empty());
        b
    }

    fn find(&self, name: &Vec<char>) -> (r: Option<usize>)
        requires
            self.wf(),
        ensures
            match r {
                Some(i) => i < self.entries().len() && self.entries()[i as int].0 == name@,
                None => !self.view().contains_key(name@),
            },
    {
        let mut i: usize = 0;
        while i < self.library.len()
            invariant
                i <= self.library@.len(),
                self.entries() == library_models(self.library@),
                forall|j: int| 0 <= j < i ==> #[trigger] self.entries()[j].0 != name@,
            decreases self.library.len() - i,
        {
            let n = chars_of(self.library[i].0.as_str());
            assert(self.entries()[i as int].0 == self.library@[i as int].0@);
            if chars_eq(&n, name) {
                return Some(i);
            }
            i += 1;
        }
        None
    }

    proof fn lemma_lookup(&self, i: int)
        requires
            self.wf(),
            0 <= i < self.entries().len(),
        ensures
            self.view().contains_key(self.entries()[i].0),
            self.view()[self.entries()[i].0] == self.entries()[i].1,
    {
        let e = self.entries();
        let k = e[i].0;
        assert(self.view().contains_key(k));
        let j = library_index(e, k);
        if j != i {
            if j < i { assert(e[j].0 != e[i].0); } else { assert(e[i].0 != e[j].0); }
        }
    }

    /// Registers `mesh` under `name`, replacing a mesh of that name.
    pub fn register(&mut self, name: &str, mesh: TriangleMesh<P>)
        ensures
            final(self).wf(),
            final(self).view() == old(self).view().insert(name@, mesh.vertices@),
    {
        proof { use_type_invariant(&*self); }
        let cs = chars_of(name);
        let ghost e = self.entries();
        let ghost mv = mesh.vertices@;
        match self.find(&cs) {
            Some(i) => {
                let key = self.library[i].0.clone();
                let mut lib: Vec<(String, TriangleMesh<P>)> = Vec::new();
                std::mem::swap(&mut lib, &mut self.library);
                lib.set(i, (key, mesh));
                let ghost le = library_models(lib@);
                assert(le =~= e.update(i as int, (name@, mv)));
                assert forall|a: int, b: int| 0 <= a < b < le.len() implies le[a].0 != le[b].0 by {
                    assert(le[a].0 == e[a].0 && le[b].0 == e[b].0);
                }
                self.library = lib;
                assert(self.entries() =~= e.update(i as int, (name@, mv)));
                let ghost m = old(self).view().insert(name@, mv);
                assert forall|k: Seq<char>| #[trigger] self.view().contains_key(k) <==> m.contains_key(k) by {
                    if self.view().contains_key(k) {
                        let j = choose|j: int| 0 <= j < self.entries().len() && self.entries()[j].0 == k;
                        assert(e[j].0 == k);
                    }
                    if old(self).view().contains_key(k) {
                        let j = choose|j: int| 0 <= j < e.len() && e[j].0 == k;
                        assert(self.entries()[j].0 == k);
                    }
                }
                assert forall|k: Seq<char>| #[trigger] self.view().contains_key(k) implies self.view()[k] == m[k] by {
                    let j = choose|j: int| 0 <= j < self.entries().len() && self.entries()[j].0 == k;
                    self.lemma_lookup(j);
                    if j != i {
                        old(self).lemma_lookup(j);
                    }
                }
                assert(self.view() =~= m);
            },
            None => {
                let mut lib: Vec<(String, TriangleMesh<P>)> = Vec::new();
                std::mem::swap(&mut lib, &mut self.library);
                lib.push((name.to_owned(), mesh));
                let ghost le = library_models(lib@);
                assert(le =~= e.push((name@, mv)));
                assert forall|a: int, b: int| 0 <= a < b < le.len() implies le[a].0 != le[b].0 by {
                    if b == e.len() {
                        assert(le[a].0 == e[a].0);
                        if e[a].0 == name@ {
                            assert(old(self).view().contains_key(name@));
                        }
                    } else {
                        assert(le[a].0 == e[a].0 && le[b].0 == e[b].0);
                    }
                }
                self.library = lib;
                assert(self.entries() =~= e.push((name@, mv)));
                let ghost m = old(self).view().insert(name@, mv);
                assert forall|k: Seq<char>| #[trigger] self.view().contains_key(k) <==> m.contains_key(k) by {
                    if self.view().contains_key(k) {
                        let j = choose|j: int| 0 <= j < self.entries().len() && self.entries()[j].0 == k;
                        if j < e.len() { assert(e[j].0 == k); }
                    }
                    if old(self).view().contains_key(k) {
                        let j = choose|j: int| 0 <= j < e.len() && e[j].0 == k;
                        assert(self.entries()[j].0 == k);
                    }
                    if k == name@ {
                        assert(self.entries()[e.len() as int].0 == k);
                    }
                }
                assert forall|k: Seq<char>| #[trigger] self.view().contains_key(k) implies self.view()[k] == m[k] by {
                    let j = choose|j: int| 0 <= j < self.entries().len() && self.entries()[j].0 == k;
                    self.lemma_lookup(j);
                    if j < e.len() {
                        old(self).lemma_lookup(j);
                    }
                }
                assert(self.view() =~= m);
            },
        }
    }

    /// A copy of the mesh registered under `name`, if any.
    pub fn get(&self, name: &str) -> (r: Option<TriangleMesh<P>>)
        ensures
            r is Some <==> self.view().contains_key(name@),
            r matches Some(m) ==> m.vertices@ == self.view()[name@],
    {
        proof { use_type_invariant(self); }
        let cs = chars_of(name);
        match self.find(&cs) {
            Some(i) => {
                proof { self.lemma_lookup(i as int); }
                assert(self.entries()[i as int].1 == self.library@[i as int].1.vertices@);
                Some(self.library[i].1.duplicate())
            },
            None => None,
        }
    }
}


/// A mesh registered under a name is what a later lookup of that name
/// gives; registering again under the same name replaces it, and other
/// names keep their meshes.
pub proof fn law_get_after_register<P: Copy>(
    before: &MeshBuilder<P>,
    after: &MeshBuilder<P>,
    name: Seq<char>,
    mesh: Seq<MeshVertex<P>>,
    other: Seq<char>,
)
    requires
        after.view() == before.view().insert(name, mesh),
    ensures
        after.view().contains_key(name),
        after.view()[name] == mesh,
        other != name ==> after.view().contains_key(other) == before.view().contains_key(other),
        other != name && before.view().contains_key(other) ==> after.view()[other] == before.view()[other],
{
}

} // verus!
