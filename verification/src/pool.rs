//! A registry of organisms keyed by an opaque organism id, so that one
//! process can serve more than one organism. Organisms are created lazily
//! on first use by a caller-supplied factory and kept for the life of the
//! registry: there is no eviction.

use vstd::prelude::*;
use crate::text::slice_texts;

verus! {

/// The organism id used when a caller does not specify one.
pub const DEFAULT_ORGANISM_ID: &'static str = "default";

/// Organisms keyed by id, in the order they were created.
pub struct OrganismPool<T> {
    ids: Vec<String>,
    members: Vec<T>,
}

/// The position of `id` among `ids`, if it occurs.
pub open spec fn slot_of(ids: Seq<Seq<char>>, id: Seq<char>) -> Option<int> {
    if exists|k: int| 0 <= k < ids.len() && ids[k] == id {
        Some(choose|k: int| 0 <= k < ids.len() && ids[k] == id)
    } else {
        None
    }
}

/// No id occurs twice in `ids`.
pub open spec fn distinct(ids: Seq<Seq<char>>) -> bool {
    forall|a: int, b: int| 0 <= a < b < ids.len() ==> #[trigger] ids[a] != #[trigger] ids[b]
}

proof fn lemma_slot_of_unique(ids: Seq<Seq<char>>, id: Seq<char>, k: int)
    requires
        distinct(ids),
        0 <= k < ids.len(),
        ids[k] == id,
    ensures
        slot_of(ids, id) == Some(k),
{
    let j = choose|j: int| 0 <= j < ids.len() && ids[j] == id;
    if j < k {
        assert(ids[j] != ids[k]);
    } else if k < j {
        assert(ids[k] != ids[j]);
    }
}

/// How a registry holding organisms `members` under `ids` is left by a
/// request for the organism of `id` that returned `r`: an id that already
/// has an organism is served from its position with nothing changed; for a
/// new id either the organism made for it is added at the end, every
/// existing one keeping its position, or the request failed and nothing
/// changed.
pub open spec fn served<T, E>(
    ids: Seq<Seq<char>>,
    members: Seq<T>,
    id: Seq<char>,
    new_ids: Seq<Seq<char>>,
    new_members: Seq<T>,
    r: Result<usize, E>,
) -> bool {
    match slot_of(ids, id) {
        Some(k) => {
            &&& r == Ok::<usize, E>(k as usize)
            &&& new_ids == ids
            &&& new_members == members
        },
        None => match r {
            Ok(k) => {
                &&& k == ids.len()
                &&& new_ids == ids.push(id)
                &&& new_members.len() == members.len() + 1
                &&& new_members.drop_last() == members
            },
            Err(_) => {
                &&& new_ids == ids
                &&& new_members == members
            },
        },
    }
}

/// Once an id has been served, every later request for it returns the same
/// organism at the same position and changes nothing.
pub proof fn the_same_id_is_served_by_the_same_organism<T, E>(
    ids: Seq<Seq<char>>,
    members: Seq<T>,
    id: Seq<char>,
    ids1: Seq<Seq<char>>,
    members1: Seq<T>,
    r1: Result<usize, E>,
    ids2: Seq<Seq<char>>,
    members2: Seq<T>,
    r2: Result<usize, E>,
)
    requires
        distinct(ids),
        ids.len() == members.len(),
        served(ids, members, id, ids1, members1, r1),
        r1 is Ok,
        served(ids1, members1, id, ids2, members2, r2),
    ensures
        r2 == r1,
        ids2 == ids1,
        members2 == members1,
{
    let k = r1->Ok_0 as int;
    if slot_of(ids, id) is None {
        assert(ids1[k] == id);
        assert(distinct(ids1)) by {
            assert forall|a: int, b: int| 0 <= a < b < ids1.len() implies #[trigger] ids1[a] != #[trigger] ids1[b] by {
                if b == k {
                    assert(ids1[a] == ids[a]);
                    if ids[a] == id {
                        assert(exists|j: int| 0 <= j < ids.len() && ids[j] == id);
                    }
                } else {
                    assert(ids1[a] == ids[a] && ids1[b] == ids[b]);
                }
            }
        }
        lemma_slot_of_unique(ids1, id, k);
    } else {
        let j = slot_of(ids, id)->0;
        assert(0 <= j < ids.len() && ids[j] == id);
        lemma_slot_of_unique(ids, id, j);
    }
}

/// Serving one id never disturbs the organism of another: it stays at its
/// position, unchanged.
pub proof fn different_ids_are_served_independently<T, E>(
    ids: Seq<Seq<char>>,
    members: Seq<T>,
    id: Seq<char>,
    new_ids: Seq<Seq<char>>,
    new_members: Seq<T>,
    r: Result<usize, E>,
    other: Seq<char>,
    k: int,
)
    requires
        distinct(ids),
        ids.len() == members.len(),
        served(ids, members, id, new_ids, new_members, r),
        other != id,
        slot_of(ids, other) == Some(k),
    ensures
        slot_of(new_ids, other) == Some(k),
        new_members[k] == members[k],
{
    let j = choose|j: int| 0 <= j < ids.len() && ids[j] == other;
    lemma_slot_of_unique(ids, other, j);
    if slot_of(ids, id) is None && r is Ok {
        assert(new_ids[k] == ids[k]);
        assert(new_members[k] == new_members.drop_last()[k]);
        assert(distinct(new_ids)) by {
            assert forall|a: int, b: int| 0 <= a < b < new_ids.len() implies #[trigger] new_ids[a] != #[trigger] new_ids[b] by {
                if b == ids.len() {
                    assert(new_ids[a] == ids[a]);
                    if ids[a] == id {
                        assert(exists|i: int| 0 <= i < ids.len() && ids[i] == id);
                    }
                } else {
                    assert(new_ids[a] == ids[a] && new_ids[b] == ids[b]);
                }
            }
        }
        lemma_slot_of_unique(new_ids, other, k);
    }
}

impl<T> OrganismPool<T> {
    /// The ids of the organisms created so far, in creation order.
    pub closed spec fn ids(&self) -> Seq<Seq<char>> {
        self.ids@.map_values(|s: String| s@)
    }

    /// The organisms created so far, in creation order; the organism at
    /// each position is the one of the id at that position.
    pub closed spec fn members(&self) -> Seq<T> {
        self.members@
    }

    /// Every id has exactly one organism and occurs once.
    pub closed spec fn wf(&self) -> bool {
        &&& self.ids@.len() == self.members@.len()
        &&& distinct(self.ids())
    }

    /// A well-formed registry holds each id once, with one organism per id.
    pub proof fn lemma_wf_ids_distinct(&self)
        requires
            self.wf(),
        ensures
            distinct(self.ids()),
            self.ids().len() == self.members().len(),
    {
    }

    /// An empty registry.
    pub fn new() -> (pool: Self)
        ensures
            pool.wf(),
            pool.ids() == Seq::<Seq<char>>::empty(),
            pool.members() == Seq::<T>::empty(),
    {
        let pool = OrganismPool { ids: Vec::new(), members: Vec::new() };
        assert(pool.ids() =~= Seq::<Seq<char>>::empty());
        pool
    }

    /// The position of the organism of `id`, if it has been created.
    pub fn find(&self, id: &str) -> (slot: Option<usize>)
        requires
            self.wf(),
        ensures
            slot is None <==> slot_of(self.ids(), id@) is None,
            slot matches Some(k) ==> slot_of(self.ids(), id@) == Some(k as int),
    {
        let mut i: usize = 0;
        while i < self.ids.len()
            invariant
                self.wf(),
                i <= self.ids@.len(),
                forall|j: int| 0 <= j < i ==> self.ids()[j] != id@,
            decreases self.ids.len() - i,
        {
            if *self.ids[i].as_str() == *id {
                proof {
                    lemma_slot_of_unique(self.ids(), id@, i as int);
                }
                return Some(i);
            }
            i = i + 1;
        }
        None
    }

    /// The position of the organism of `id`, creating it with `factory` on
    /// first use. An id that already has an organism keeps it: the factory
    /// is not called and nothing changes. For a new id the factory is
    /// called once; if it fails, its error is returned and nothing changes,
    /// otherwise the new organism is added under `id` after every existing
    /// one, which keep their positions.
    pub fn get_or_create<E, F: FnOnce(&str) -> Result<T, E>>(&mut self, id: &str, factory: F) -> (r:
        Result<usize, E>)
        requires
            old(self).wf(),
            call_requires(factory, (id,)),
        ensures
            final(self).wf(),
            distinct(final(self).ids()),
            final(self).ids().len() == final(self).members().len(),
            served(old(self).ids(), old(self).members(), id@, final(self).ids(), final(self).members(), r),
            slot_of(old(self).ids(), id@) is None ==> match r {
                Ok(k) => call_ensures(factory, (id,), Ok::<T, E>(final(self).members()[k as int])),
                Err(e) => call_ensures(factory, (id,), Err::<T, E>(e)),
            },
    {
        match self.find(id) {
            Some(k) => Ok(k),
            None => {
                let created = factory(id);
                match created {
                    Ok(member) => {
                        let k = self.ids.len();
                        proof {
                            assert(self.ids@.len() == self.members@.len());
                        }
                        self.ids.push(id.to_owned());
                        self.members.push(member);
                        proof {
                            assert(self.ids() =~= old(self).ids().push(id@));
                            assert(self.members().drop_last() =~= old(self).members());
                            assert forall|a: int, b: int|
                                0 <= a < b < self.ids().len() implies #[trigger] self.ids()[a]
                                != #[trigger] self.ids()[b] by {
                                if b == k {
                                    assert(old(self).ids()[a] != id@);
                                } else {
                                    assert(old(self).ids()[a] != old(self).ids()[b]);
                                }
                            }
                        }
                        Ok(k)
                    },
                    Err(e) => Err(e),
                }
            },
        }
    }

    /// The organism at position `slot`, for use in place.
    pub fn member_mut(&mut self, slot: usize) -> (m: &mut T)
        requires
            old(self).wf(),
            slot < old(self).members().len(),
        ensures
            *m == old(self).members()[slot as int],
            final(self).members() == old(self).members().update(slot as int, *final(m)),
            final(self).ids() == old(self).ids(),
            final(self).wf(),
    {
        &mut self.members[slot]
    }

    /// Ids of every organism created so far, in creation order.
    pub fn known_ids(&self) -> (ids: Vec<&str>)
        ensures
            slice_texts(ids@) == self.ids(),
    {
        let mut ids: Vec<&str> = Vec::new();
        let mut i: usize = 0;
        while i < self.ids.len()
            invariant
                i <= self.ids@.len(),
                ids@.len() == i,
                slice_texts(ids@) == self.ids().take(i as int),
            decreases self.ids.len() - i,
        {
            let id = self.ids[i].as_str();
            assert(self.ids()[i as int] == id@);
            ids.push(id);
            assert(slice_texts(ids@) =~= self.ids().take(i + 1));
            i = i + 1;
        }
        assert(self.ids().take(self.ids@.len() as int) =~= self.ids());
        ids
    }
}

} // verus!
