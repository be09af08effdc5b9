//! The engine's entity database: a list of entities of mixed types that
//! tasks look up by type.
//!
//! Each entity is stored with a kind key that stands for its type (the
//! application derives it from the entity's type); a lookup by type is a
//! lookup by kind.
use vstd::prelude::*;

verus! {

/// Entities with their kind keys, in insertion order.
pub struct EntityDatabase<E> {
    entities: Vec<(u64, E)>,
}

/// `e[i]` is the first entity of kind `kind`.
pub open spec fn first_of_kind<E>(e: Seq<(u64, E)>, kind: u64, i: int) -> bool {
    0 <= i < e.len() && e[i].0 == kind && forall|j: int| 0 <= j < i ==> e[j].0 != kind
}

/// Some entity has kind `kind`.
pub open spec fn has_kind<E>(e: Seq<(u64, E)>, kind: u64) -> bool {
    exists|i: int| 0 <= i < e.len() && e[i].0 == kind
}

/// The entities of kind `kind`, in order.
pub open spec fn of_kind<E>(e: Seq<(u64, E)>, kind: u64) -> Seq<E>
    decreases e.len(),
{
    if e.len() == 0 {
        Seq::empty()
    } else {
        let rest = of_kind(e.drop_last(), kind);
        if e.last().0 == kind { rest.push(e.last().1) } else { rest }
    }
}

impl<E> EntityDatabase<E> {
    /// The entities with their kinds, in order.
    pub closed spec fn view(&self) -> Seq<(u64, E)> {
        self.entities@
    }

    pub fn new() -> (db: Self)
        ensures
            db.view() == Seq::<(u64, E)>::empty(),
    {
        EntityDatabase { entities: Vec::new() }
    }

    fn position(&self, kind: u64) -> (r: Option<usize>)
        ensures
            match r {
                Some(i) => first_of_kind(self.view(), kind, i as int),
                None => !has_kind(self.view(), kind),
            },
    {
        let mut i: usize = 0;
        while i < self.entities.len()
            invariant
                i <= self.entities@.len(),
                forall|j: int| 0 <= j < i ==> self.entities@[j].0 != kind,
            decreases self.entities.len() - i,
        {
            if self.entities[i].0 == kind {
                return Some(i);
            }
            i += 1;
        }
        None
    }

    /// The first entity of kind `kind`, if any.
    pub fn select(&self, kind: u64) -> (r: Option<&E>)
        ensures
            r is None <==> !has_kind(self.view(), kind),
            r matches Some(e) ==> exists|i: int| first_of_kind(self.view(), kind, i) && *e == self.view()[i].1,
    {
        match self.position(kind) {
            Some(i) => Some(&self.entities[i].1),
            None => None,
        }
    }

    /// The first entity of kind `kind`, for changing it, if any.
    pub fn select_mut(&mut self, kind: u64) -> (r: Option<&mut E>)
        ensures
            r is None <==> !has_kind(old(self).view(), kind),
            r is None ==> final(self).view() == old(self).view(),
            r matches Some(e) ==> exists|i: int| {
                &&& first_of_kind(old(self).view(), kind, i)
                &&& *e == old(self).view()[i].1
                &&& final(self).view() == old(self).view().update(i, (kind, *final(e)))
            },
    {
        match self.position(kind) {
            Some(i) => Some(&mut self.entities[i].1),
            None => None,
        }
    }

    /// The first entity of kind `kind`, which must exist.
    pub fn must_select_mut(&mut self, kind: u64) -> (e: &mut E)
        requires
            has_kind(old(self).view(), kind),
        ensures
            exists|i: int| {
                &&& first_of_kind(old(self).view(), kind, i)
                &&& *e == old(self).view()[i].1
                &&& final(self).view() == old(self).view().update(i, (kind, *final(e)))
            },
    {
        let i = self.position(kind).unwrap();
        &mut self.entities[i].1
    }

    /// All entities of kind `kind`, in order.
    pub fn query(&self, kind: u64) -> (r: Vec<&E>)
        ensures
            r@.len() == of_kind(self.view(), kind).len(),
            forall|k: int| 0 <= k < r@.len() ==> *r@[k] == of_kind(self.view(), kind)[k],
    {
        let mut results: Vec<&E> = Vec::new();
        let mut i: usize = 0;
        while i < self.entities.len()
            invariant
                i <= self.entities@.len(),
                results@.len() == of_kind(self.view().take(i as int), kind).len(),
                forall|k: int| 0 <= k < results@.len() ==> *results@[k] == of_kind(self.view().take(i as int), kind)[k],
            decreases self.entities.len() - i,
        {
            assert(self.view().take(i + 1).drop_last() =~= self.view().take(i as int));
            if self.entities[i].0 == kind {
                results.push(&self.entities[i].1);
            }
            i += 1;
        }
        assert(self.view().take(i as int) =~= self.view());
        results
    }

    /// Moves all entities of `other` to the end of this database.
    pub fn append(&mut self, other: &mut Vec<(u64, E)>)
        ensures
            final(self).view() == old(self).view() + old(other)@,
            final(other)@ == Seq::<(u64, E)>::empty(),
    {
        self.entities.append(other);
    }

    /// Exchanges the entities of two databases.
    pub fn swap_entities(&mut self, other: &mut Self)
        ensures
            final(self).view() == old(other).view(),
            final(other).view() == old(self).view(),
    {
        std::mem::swap(&mut self.entities, &mut other.entities);
    }
}


//=========================================================================
// Laws
//=========================================================================

/// After an append, a query by kind gives the entities of that kind that
/// were there before, then those of that kind that were appended.
pub proof fn law_query_after_append<E>(before: Seq<(u64, E)>, appended: Seq<(u64, E)>, kind: u64)
    ensures
        of_kind(before + appended, kind) == of_kind(before, kind) + of_kind(appended, kind),
    decreases appended.len(),
{
    if appended.len() == 0 {
        assert(before + appended =~= before);
        assert(of_kind(before, kind) + of_kind(appended, kind) =~= of_kind(before, kind));
    } else {
        law_query_after_append(before, appended.drop_last(), kind);
        assert((before + appended).drop_last() =~= before + appended.drop_last());
        if appended.last().0 == kind {
            assert(of_kind(before, kind) + of_kind(appended, kind)
                =~= (of_kind(before, kind) + of_kind(appended.drop_last(), kind)).push(appended.last().1));
        }
    }
}

/// Swapping the entities of two databases twice gives each its own back.
pub proof fn law_swap_twice_restores<E>(
    a0: &EntityDatabase<E>,
    b0: &EntityDatabase<E>,
    a1: &EntityDatabase<E>,
    b1: &EntityDatabase<E>,
    a2: &EntityDatabase<E>,
    b2: &EntityDatabase<E>,
)
    requires
        a1.view() == b0.view(),
        b1.view() == a0.view(),
        a2.view() == b1.view(),
        b2.view() == a1.view(),
    ensures
        a2.view() == a0.view(),
        b2.view() == b0.view(),
{
}

/// `select` and `must_select_mut` agree: there is only one first entity of
/// a kind.
pub proof fn law_first_of_kind_unique<E>(e: Seq<(u64, E)>, kind: u64, i: int, j: int)
    requires
        first_of_kind(e, kind, i),
        first_of_kind(e, kind, j),
    ensures
        i == j,
{
}

/// Changing the entity that `select_mut` or `must_select_mut` hands out
/// leaves the database otherwise as it was: no entity is added, removed or
/// reordered, every kind stays, and the changed entity is still the first
/// of its kind.
pub proof fn law_select_mut_changes_only_that_entity<E>(before: Seq<(u64, E)>, after: Seq<(u64, E)>, kind: u64, i: int, x: E)
    requires
        first_of_kind(before, kind, i),
        after == before.update(i, (kind, x)),
    ensures
        after.len() == before.len(),
        forall|j: int| 0 <= j < after.len() ==> #[trigger] after[j].0 == before[j].0,
        forall|j: int| 0 <= j < after.len() && j != i ==> #[trigger] after[j] == before[j],
        after[i].1 == x,
        first_of_kind(after, kind, i),
{
}

} // verus!
