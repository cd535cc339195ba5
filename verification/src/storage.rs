use std::collections::hash_map::Entry;
use std::collections::HashMap;
use vstd::prelude::*;

use crate::entity::Entity;

verus! {

broadcast use vstd::std_specs::hash::group_hash_axioms;

/// The table of one component type: at most one value per entity.
pub struct Storage<T> {
    pub data: HashMap<u32, T>,
}

/// A shared view of one table: any number may be held at once, and none
/// while the table is viewed exclusively.
pub type StorageView<'a, T> = &'a Storage<T>;

/// An exclusive view of one table: while it is held, no other view of the
/// table can be.
pub type StorageViewMut<'a, T> = &'a mut Storage<T>;

impl<T> View for Storage<T> {
    type V = Map<Entity, T>;

    open spec fn view(&self) -> Map<Entity, T> {
        Map::new(|e: Entity| self.data@.contains_key(e.0), |e: Entity| self.data@[e.0])
    }
}

/// `rows` lists every entry of `table` exactly once, in some order.
pub open spec fn enumerates<T>(rows: Seq<(Entity, &T)>, table: Map<Entity, T>) -> bool {
    &&& forall|i: int, j: int| 0 <= i < j < rows.len() ==> rows[i].0 != rows[j].0
    &&& forall|i: int|
        0 <= i < rows.len() ==> table.contains_key((#[trigger] rows[i]).0) && *rows[i].1
            == table[rows[i].0]
    &&& forall|e: Entity|
        table.contains_key(e) ==> exists|i: int| 0 <= i < rows.len() && (#[trigger] rows[i]).0 == e
}

impl<T> Storage<T> {
    /// An empty table.
    pub fn new() -> (s: Self)
        ensures
            s@ == Map::<Entity, T>::empty(),
    {
        Storage { data: HashMap::new() }
    }

    /// Stores `component` for `entity` and hands back the value it replaces,
    /// if there was one.
    pub fn insert(&mut self, entity: Entity, component: T) -> (previous: Option<T>)
        ensures
            final(self)@ == old(self)@.insert(entity, component),
            previous == old(self)@.get(entity),
    {
        let previous = self.data.insert(entity.0, component);
        assert(self@ =~= old(self)@.insert(entity, component));
        previous
    }

    /// The value stored for `entity`, if there is one.
    pub fn get(&self, entity: Entity) -> (r: Option<&T>)
        ensures
            r == (if self@.contains_key(entity) { Some(&self@[entity]) } else { None }),
    {
        self.data.get(&entity.0)
    }

    /// The value stored for `entity`, for writing in place. What is written
    /// is what the table then holds for `entity`; no other entry changes.
    pub fn get_mut(&mut self, entity: Entity) -> (r: Option<&mut T>)
        ensures
            match r {
                Some(value) => {
                    &&& old(self)@.contains_key(entity)
                    &&& *value == old(self)@[entity]
                    &&& final(self)@ == old(self)@.insert(entity, *final(value))
                },
                None => !old(self)@.contains_key(entity) && final(self)@ == old(self)@,
            },
    {
        match self.data.entry(entity.0) {
            Entry::Occupied(slot) => Some(slot.into_mut()),
            Entry::Vacant(_) => None,
        }
    }

    /// Takes the value stored for `entity` out of the table, if there is one.
    /// No later lookup or enumeration finds it.
    pub fn remove(&mut self, entity: Entity) -> (removed: Option<T>)
        ensures
            final(self)@ == old(self)@.remove(entity),
            removed == old(self)@.get(entity),
    {
        let removed = self.data.remove(&entity.0);
        assert(self@ =~= old(self)@.remove(entity));
        removed
    }

    /// Whether `entity` has a value here.
    pub fn contains(&self, entity: Entity) -> (r: bool)
        ensures
            r == self@.contains_key(entity),
    {
        self.data.contains_key(&entity.0)
    }

    /// The number of entities that have a value here.
    pub fn len(&self) -> (n: usize)
        ensures
            n == self@.len(),
            self@.dom().finite(),
    {
        proof {
            self.lemma_same_size();
        }
        self.data.len()
    }

    /// Whether no entity has a value here.
    pub fn is_empty(&self) -> (r: bool)
        ensures
            r == (self@.len() == 0),
            self@.dom().finite(),
    {
        self.len() == 0
    }

    /// The table has as many entries as the map it is kept in.
    proof fn lemma_same_size(&self)
        ensures
            self@.dom().finite(),
            self@.len() == self.data@.len(),
    {
        let wrap = |id: u32| Entity(id);
        assert(self.data@.dom().map(wrap) =~= self@.dom()) by {
            assert forall|e: Entity| self@.dom().contains(e) implies self.data@.dom().map(
                wrap,
            ).contains(e) by {
                assert(self.data@.dom().contains(e.0) && e == wrap(e.0));
            }
        }
        assert(vstd::relations::injective_on(wrap, self.data@.dom()));
        vstd::set_lib::lemma_map_size(self.data@.dom(), self@.dom(), wrap);
    }

    /// The entities that have a value here, each once, in no fixed order.
    /// Together with [`Storage::get_mut`] this walks the table for writing.
    pub fn entities(&self) -> (ids: Vec<Entity>)
        ensures
            ids@.no_duplicates(),
            forall|e: Entity| ids@.contains(e) <==> self@.contains_key(e),
    {
        let rows = self.iter();
        let mut ids: Vec<Entity> = Vec::new();
        let mut i: usize = 0;
        while i < rows.len()
            invariant
                i <= rows.len(),
                ids@.len() == i,
                forall|j: int| 0 <= j < i ==> ids@[j] == rows@[j].0,
            decreases rows.len() - i,
        {
            ids.push(rows[i].0);
            i += 1;
        }
        proof {
            assert forall|e: Entity| ids@.contains(e) <==> self@.contains_key(e) by {
                if ids@.contains(e) {
                    let j = choose|j: int| 0 <= j < ids@.len() && ids@[j] == e;
                    assert(self@.contains_key(rows@[j].0));
                }
                if self@.contains_key(e) {
                    let j = choose|j: int| 0 <= j < rows@.len() && (#[trigger] rows@[j]).0 == e;
                    assert(ids@[j] == e);
                }
            }
        }
        ids
    }

    /// Every entry, once, in the order in which the underlying map
    /// enumerates them. That order is not fixed: it may differ between two
    /// calls and between two runs.
    pub fn iter(&self) -> (rows: Vec<(Entity, &T)>)
        ensures
            enumerates(rows@, self@),
    {
        let ghost walk = vstd::std_specs::iter::IteratorSpec::remaining(&self.data.iter());
        let mut rows: Vec<(Entity, &T)> = Vec::new();
        for (id, value) in it: self.data.iter()
            invariant
                it.seq() == walk,
                rows@.len() == it.index(),
                forall|j: int|
                    0 <= j < rows@.len() ==> (#[trigger] rows@[j]).0 == Entity(*walk[j].0)
                        && rows@[j].1 == walk[j].1,
        {
            rows.push((Entity(*id), value));
        }
        proof {
            assert forall|i: int| 0 <= i < rows@.len() implies self@.contains_key(
                (#[trigger] rows@[i]).0,
            ) && *rows@[i].1 == self@[rows@[i].0] by {
                assert(self.data@.contains_key(*walk[i].0));
            }
            assert forall|i: int, j: int| 0 <= i < j < rows@.len() implies rows@[i].0
                != rows@[j].0 by {
                assert(self.data@.contains_key(*walk[i].0));
                assert(self.data@.contains_key(*walk[j].0));
                if rows@[i].0 == rows@[j].0 {
                    assert(walk[i] == walk[j]);
                }
            }
            assert forall|e: Entity| self@.contains_key(e) implies exists|i: int|
                0 <= i < rows@.len() && (#[trigger] rows@[i]).0 == e by {
                let pair = (&e.0, &self.data@[e.0]);
                assert(walk.contains(pair));
                let i = choose|i: int| 0 <= i < walk.len() && walk[i] == pair;
                assert(rows@[i].0 == e);
            }
        }
        rows
    }
}

} // verus!
