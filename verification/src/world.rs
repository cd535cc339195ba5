use std::collections::hash_map::Entry;
use std::collections::HashMap;
use vstd::prelude::*;

use crate::entity::Entity;
use crate::join::{join2, join3};
use crate::registry::{Component, ErasedStorage};
use crate::storage::{Storage, StorageView, StorageViewMut};

verus! {

broadcast use vstd::std_specs::hash::group_hash_axioms;

/// The identifiers are 1, 2, 3, ... in this order.
pub open spec fn consecutive(ids: Seq<Entity>) -> bool {
    forall|i: int| 0 <= i < ids.len() ==> (#[trigger] ids[i]).0 == i + 1
}

/// The mathematical content of a [`World`].
pub struct WorldView<S> {
    /// Every entity allocated so far, in allocation order.
    pub entities: Seq<Entity>,
    /// The erased table of each component type that has one, by type identity.
    pub storages: Map<u64, S>,
}

impl<S: ErasedStorage> WorldView<S> {
    /// Identifiers were handed out as 1, 2, 3, ... and each handle sits under
    /// the identity of the type it was built from.
    pub open spec fn wf(self) -> bool {
        &&& consecutive(self.entities)
        &&& forall|k: u64| self.storages.contains_key(k) ==> (#[trigger] self.storages[k]).tag() == k
    }

    /// Whether a table of `T` exists, that is, whether a `T` was ever inserted.
    pub open spec fn has<T: Component<S>>(self) -> bool {
        self.storages.contains_key(T::key())
    }

    /// The components of type `T`, by entity; empty while `T` has no table.
    pub open spec fn components<T: Component<S>>(self) -> Map<Entity, T> {
        if self.has::<T>() {
            T::table(self.storages[T::key()])@
        } else {
            Map::empty()
        }
    }

    /// `next` is this world after one more entity, `entity`, was allocated.
    pub open spec fn spawns(self, next: Self, entity: Entity) -> bool {
        &&& entity.0 == self.entities.len() + 1
        &&& next.entities == self.entities.push(entity)
        &&& next.storages == self.storages
    }

    /// `next` is this world after `component` was stored for `entity`: the
    /// table of `T` exists and holds it, and nothing else has changed.
    pub open spec fn inserts<T: Component<S>>(self, next: Self, entity: Entity, component: T) -> bool {
        &&& next.entities == self.entities
        &&& next.has::<T>()
        &&& next.components::<T>() == self.components::<T>().insert(entity, component)
        &&& self.same_except(next, T::key())
    }

    /// `next` is this world after the component of type `T` of `entity` was
    /// taken out: it is gone, and nothing else has changed.
    pub open spec fn removes<T: Component<S>>(self, next: Self, entity: Entity) -> bool {
        &&& next.entities == self.entities
        &&& next.has::<T>() == self.has::<T>()
        &&& next.components::<T>() == self.components::<T>().remove(entity)
        &&& self.same_except(next, T::key())
    }

    /// `next` has a table under the same identities as this world, and the
    /// same table under each of them but `first` and `second`.
    pub open spec fn same_except_two(self, next: Self, first: u64, second: u64) -> bool {
        forall|k: u64|
            #![trigger next.storages.contains_key(k)]
            #![trigger next.storages[k]]
            k != first && k != second ==> next.storages.contains_key(k)
                == self.storages.contains_key(k) && next.storages[k] == self.storages[k]
    }

    /// `next` has a table under the same identities as this world, and the
    /// same table under each of them but `key`.
    pub open spec fn same_except(self, next: Self, key: u64) -> bool {
        forall|k: u64|
            #![trigger next.storages.contains_key(k)]
            #![trigger next.storages[k]]
            k != key ==> next.storages.contains_key(k) == self.storages.contains_key(k)
                && next.storages[k] == self.storages[k]
    }
}

/// Two views were asked for at once that would be views of one and the same
/// table, at least one of them exclusive.
#[derive(Clone, Copy, Debug, PartialEq, Eq, Structural)]
pub struct BorrowConflict {
    /// Identity of the component type whose table was asked for twice.
    pub key: u64,
}

/// Hands out the values under two different keys of `map` for writing at the
/// same time, by `HashMap::get_disjoint_mut`. Each result is the value
/// stored under its key, or `None` if the map has none; what is written
/// through them is what the map then holds under those keys, and the map
/// changes in no other way. The standard library panics if the same key is
/// given twice, so that is ruled out.
#[verifier::external_body]
fn slots_mut<'a, S>(map: &'a mut HashMap<u64, S>, first: u64, second: u64) -> (r: (
    Option<&'a mut S>,
    Option<&'a mut S>,
))
    requires
        first != second,
    ensures
        r.0 is Some <==> old(map)@.contains_key(first),
        r.1 is Some <==> old(map)@.contains_key(second),
        r.0 matches Some(a) ==> *a == old(map)@[first] && final(map)@[first] == *final(a),
        r.1 matches Some(b) ==> *b == old(map)@[second] && final(map)@[second] == *final(b),
        final(map)@.dom() == old(map)@.dom(),
        forall|k: u64| k != first && k != second ==> #[trigger] final(map)@[k] == old(map)@[k],
{
    let [a, b] = map.get_disjoint_mut([&first, &second]);
    (a, b)
}

/// Owns every entity identifier handed out so far and, behind erased
/// handles of type `S`, one table per component type that was ever inserted.
///
/// A handle is only ever stored under the identity of the type it was built
/// from, so recovering the table of a type from the handle found under its
/// identity cannot fail; were it to fail all the same, the program stops.
pub struct World<S> {
    entities: Vec<Entity>,
    storages: HashMap<u64, S>,
}

impl<S> View for World<S> {
    type V = WorldView<S>;

    closed spec fn view(&self) -> WorldView<S> {
        WorldView { entities: self.entities@, storages: self.storages@ }
    }
}

impl<S: ErasedStorage> World<S> {
    /// A world with no entity and no table.
    pub fn new() -> (world: Self)
        ensures
            world@.wf(),
            world@.entities == Seq::<Entity>::empty(),
            world@.storages == Map::<u64, S>::empty(),
    {
        World { entities: Vec::new(), storages: HashMap::new() }
    }

    /// The entities allocated so far, oldest first.
    pub fn entities(&self) -> (ids: &Vec<Entity>)
        ensures
            ids@ == self@.entities,
    {
        &self.entities
    }

    /// Allocates the next identifier: one more than the last, starting at 1.
    pub fn spawn(&mut self) -> (entity: Entity)
        requires
            old(self)@.wf(),
            old(self)@.entities.len() < u32::MAX,
        ensures
            final(self)@.wf(),
            old(self)@.spawns(final(self)@, entity),
            forall|i: int| 0 <= i < old(self)@.entities.len() ==> old(self)@.entities[i].0 < entity.0,
    {
        let count: usize = self.entities.len();
        let last: u32 = if count == 0 {
            0
        } else {
            self.entities[count - 1].0
        };
        let entity = Entity(last + 1);
        self.entities.push(entity);
        proof {
            assert(self@.storages == old(self)@.storages);
            assert forall|i: int| 0 <= i < self@.entities.len() implies (#[trigger] self@.entities[i]).0
                == i + 1 by {
                if i < count {
                    assert(self@.entities[i] == old(self)@.entities[i]);
                }
            }
        }
        entity
    }

    /// Like [`World::spawn`], but answers `None`, and changes nothing, once
    /// the identifiers are used up.
    pub fn try_spawn(&mut self) -> (r: Option<Entity>)
        requires
            old(self)@.wf(),
        ensures
            final(self)@.wf(),
            match r {
                Some(entity) => old(self)@.entities.len() < u32::MAX && old(self)@.spawns(
                    final(self)@,
                    entity,
                ),
                None => old(self)@.entities.len() >= u32::MAX && final(self)@ == old(self)@,
            },
    {
        if self.entities.len() < u32::MAX as usize {
            Some(self.spawn())
        } else {
            None
        }
    }

    /// Stores `component` for `entity`, replacing any earlier value of that
    /// type for it; the table of `T` is created first if there is none.
    pub fn insert<T: Component<S>>(&mut self, entity: Entity, component: T)
        requires
            old(self)@.wf(),
        ensures
            final(self)@.wf(),
            old(self)@.inserts::<T>(final(self)@, entity, component),
    {
        let ghost before = self@;
        let handle = self.storages.entry(T::type_key()).or_insert(T::erase(Storage::new()));
        assert(handle.tag() == T::key()) by {
            if before.storages.contains_key(T::key()) {
                assert(before.storages[T::key()].tag() == T::key());
            }
        }
        match T::downcast_mut(handle) {
            Some(storage) => {
                storage.insert(entity, component);
            },
            None => unreached(),
        }
        proof {
            assert(self@.entities == before.entities);
            assert(self@.components::<T>() =~= before.components::<T>().insert(entity, component));
        }
    }

    /// Takes the component of type `T` of `entity` out of the world, if it
    /// has one. The table of `T` stays, even when this leaves it empty.
    pub fn remove<T: Component<S>>(&mut self, entity: Entity) -> (removed: Option<T>)
        requires
            old(self)@.wf(),
        ensures
            final(self)@.wf(),
            old(self)@.removes::<T>(final(self)@, entity),
            removed == old(self)@.components::<T>().get(entity),
    {
        let removed = match self.storage_mut::<T>() {
            Some(storage) => storage.remove(entity),
            None => None,
        };
        proof {
            assert(self@.components::<T>() =~= old(self)@.components::<T>().remove(entity));
        }
        removed
    }

    /// Whether any component of type `T` was ever inserted.
    pub fn has_storage<T: Component<S>>(&self) -> (r: bool)
        ensures
            r == self@.has::<T>(),
    {
        self.storages.contains_key(&T::type_key())
    }

    /// A shared view of the table of `T`, or `None` if there is none.
    pub fn storage<T: Component<S>>(&self) -> (r: Option<StorageView<'_, T>>)
        requires
            self@.wf(),
        ensures
            r is Some <==> self@.has::<T>(),
            r matches Some(storage) ==> *storage == T::table(self@.storages[T::key()]) && storage@
                == self@.components::<T>(),
    {
        assert(self@.has::<T>() ==> self@.storages[T::key()].tag() == T::key());
        match self.storages.get(&T::type_key()) {
            Some(handle) => match T::downcast_ref(handle) {
                Some(storage) => Some(storage),
                None => unreached(),
            },
            None => None,
        }
    }

    /// An exclusive view of the table of `T`, or `None` if there is none.
    /// What is written through the view is what the world then holds for
    /// `T`; nothing else changes.
    pub fn storage_mut<T: Component<S>>(&mut self) -> (r: Option<StorageViewMut<'_, T>>)
        requires
            old(self)@.wf(),
        ensures
            final(self)@.wf(),
            final(self)@.entities == old(self)@.entities,
            final(self)@.has::<T>() == old(self)@.has::<T>(),
            old(self)@.same_except(final(self)@, T::key()),
            match r {
                Some(storage) => {
                    &&& old(self)@.has::<T>()
                    &&& *storage == T::table(old(self)@.storages[T::key()])
                    &&& storage@ == old(self)@.components::<T>()
                    &&& final(self)@.components::<T>() == final(storage)@
                },
                None => !old(self)@.has::<T>() && final(self)@.storages == old(self)@.storages,
            },
    {
        let ghost before = self@;
        proof {
            assert(before.has::<T>() ==> before.storages[T::key()].tag() == T::key());
            assert forall|ids: Seq<Entity>| ids =~= before.entities implies #[trigger] consecutive(
                ids,
            ) by {}
        }
        match self.storages.entry(T::type_key()) {
            Entry::Occupied(slot) => match T::downcast_mut(slot.into_mut()) {
                Some(storage) => Some(storage),
                None => unreached(),
            },
            Entry::Vacant(_) => None,
        }
    }

    /// Exclusive views of the tables of two different types at once: an
    /// exclusive view of one table does not stand in the way of a view of
    /// another. Asking for the same table twice is a conflict; it is refused
    /// and the world is left as it was.
    pub fn storage_pair_mut<A: Component<S>, B: Component<S>>(&mut self) -> (r: Result<
        (Option<StorageViewMut<'_, A>>, Option<StorageViewMut<'_, B>>),
        BorrowConflict,
    >)
        requires
            old(self)@.wf(),
        ensures
            final(self)@.wf(),
            final(self)@.entities == old(self)@.entities,
            old(self)@.same_except_two(final(self)@, A::key(), B::key()),
            match r {
                Ok((first, second)) => {
                    &&& A::key() != B::key()
                    &&& first is Some <==> old(self)@.has::<A>()
                    &&& second is Some <==> old(self)@.has::<B>()
                    &&& final(self)@.has::<A>() == old(self)@.has::<A>()
                    &&& final(self)@.has::<B>() == old(self)@.has::<B>()
                    &&& first matches Some(a) ==> a@ == old(self)@.components::<A>()
                        && final(self)@.components::<A>() == final(a)@
                    &&& second matches Some(b) ==> b@ == old(self)@.components::<B>()
                        && final(self)@.components::<B>() == final(b)@
                },
                Err(conflict) => {
                    &&& A::key() == B::key()
                    &&& conflict.key == A::key()
                    &&& final(self)@.storages == old(self)@.storages
                },
            },
    {
        let ghost before = self@;
        let first_key = A::type_key();
        let second_key = B::type_key();
        if first_key == second_key {
            return Err(BorrowConflict { key: first_key });
        }
        proof {
            assert(before.has::<A>() ==> before.storages[A::key()].tag() == A::key());
            assert(before.has::<B>() ==> before.storages[B::key()].tag() == B::key());
            assert forall|ids: Seq<Entity>| ids =~= before.entities implies #[trigger] consecutive(
                ids,
            ) by {}
        }
        let (first, second) = slots_mut(&mut self.storages, first_key, second_key);
        let first = match first {
            Some(handle) => match A::downcast_mut(handle) {
                Some(storage) => Some(storage),
                None => unreached(),
            },
            None => None,
        };
        let second = match second {
            Some(handle) => match B::downcast_mut(handle) {
                Some(storage) => Some(storage),
                None => unreached(),
            },
            None => None,
        };
        Ok((first, second))
    }

    /// Every entity that has a `T`, each once and with its value, in the
    /// order in which the table of `T` enumerates them.
    pub fn query<T: Component<S>>(&self) -> (rows: Vec<(Entity, &T)>)
        requires
            self@.wf(),
        ensures
            crate::storage::enumerates(rows@, self@.components::<T>()),
            !self@.has::<T>() ==> rows@.len() == 0,
    {
        match self.storage::<T>() {
            Some(table) => table.iter(),
            None => Vec::new(),
        }
    }

    /// Every entity that has both an `A` and a `B`, each once and with its
    /// two values. The table of `A` is walked and the table of `B` probed.
    pub fn query2<A: Component<S>, B: Component<S>>(&self) -> (rows: Vec<(Entity, &A, &B)>)
        requires
            self@.wf(),
        ensures
            crate::join::joins2(rows@, self@.components::<A>(), self@.components::<B>()),
            !self@.has::<A>() || !self@.has::<B>() ==> rows@.len() == 0,
    {
        match (self.storage::<A>(), self.storage::<B>()) {
            (Some(a), Some(b)) => {
                let walk = a.iter();
                proof {
                    crate::join::lemma_joined2_joins(walk@, a@, b@);
                }
                join2(walk, b)
            },
            _ => Vec::new(),
        }
    }

    /// Every entity that has an `A`, a `B` and a `C`, each once and with its
    /// three values. The table of `A` is walked and the other two probed.
    pub fn query3<A: Component<S>, B: Component<S>, C: Component<S>>(&self) -> (rows: Vec<
        (Entity, &A, &B, &C),
    >)
        requires
            self@.wf(),
        ensures
            crate::join::joins3(
                rows@,
                self@.components::<A>(),
                self@.components::<B>(),
                self@.components::<C>(),
            ),
            !self@.has::<A>() || !self@.has::<B>() || !self@.has::<C>() ==> rows@.len() == 0,
    {
        match (self.storage::<A>(), self.storage::<B>(), self.storage::<C>()) {
            (Some(a), Some(b), Some(c)) => {
                let walk = a.iter();
                proof {
                    crate::join::lemma_joined3_joins(walk@, a@, b@, c@);
                }
                join3(walk, b, c)
            },
            _ => Vec::new(),
        }
    }
}

} // verus!
