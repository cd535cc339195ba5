use vstd::prelude::*;

use crate::entity::Entity;
use crate::registry::{Component, ErasedStorage};
use crate::world::WorldView;

verus! {

/// The entities of a world are strictly increasing in the order in which
/// they were allocated, so no two of them are equal.
pub proof fn lemma_entities_increasing<S: ErasedStorage>(world: WorldView<S>)
    requires
        world.wf(),
    ensures
        forall|i: int, j: int|
            0 <= i < j < world.entities.len() ==> world.entities[i].0 < world.entities[j].0,
        world.entities.no_duplicates(),
{
    assert forall|i: int, j: int| 0 <= i < j < world.entities.len() implies world.entities[i].0
        < world.entities[j].0 by {
        assert(world.entities[i].0 == i + 1);
        assert(world.entities[j].0 == j + 1);
    }
    assert forall|i: int, j: int|
        0 <= i < world.entities.len() && 0 <= j < world.entities.len() && i
            != j implies world.entities[i] != world.entities[j] by {
        assert(world.entities[i].0 == i + 1);
        assert(world.entities[j].0 == j + 1);
    }
}

/// An entity that `spawn` returns is greater than every entity allocated
/// before it, was not allocated before, and leaves the world well formed.
pub proof fn lemma_spawn_fresh<S: ErasedStorage>(
    before: WorldView<S>,
    after: WorldView<S>,
    entity: Entity,
)
    requires
        before.wf(),
        before.spawns(after, entity),
    ensures
        after.wf(),
        entity.0 >= 1,
        !before.entities.contains(entity),
        forall|i: int| 0 <= i < before.entities.len() ==> before.entities[i].0 < entity.0,
{
    assert forall|i: int| 0 <= i < before.entities.len() implies before.entities[i].0
        < entity.0 by {
        assert(before.entities[i].0 == i + 1);
    }
    assert forall|i: int| 0 <= i < after.entities.len() implies (#[trigger] after.entities[i]).0
        == i + 1 by {
        if i < before.entities.len() {
            assert(after.entities[i] == before.entities[i]);
        }
    }
}

/// Of two entities that `spawn` returns, the later is the greater, whatever
/// was spawned or inserted in between: the entities of `second` are still
/// the first entities of `third`.
pub proof fn lemma_spawn_increases<S: ErasedStorage>(
    first: WorldView<S>,
    second: WorldView<S>,
    third: WorldView<S>,
    fourth: WorldView<S>,
    earlier: Entity,
    later: Entity,
)
    requires
        first.wf(),
        first.spawns(second, earlier),
        third.wf(),
        second.entities.is_prefix_of(third.entities),
        third.spawns(fourth, later),
    ensures
        earlier.0 < later.0,
        earlier != later,
{
}

/// Inserting a component of type `A` for `entity` changes no component of
/// another type `B`, for `entity` or any other, and no component of type `A`
/// of any other entity.
pub proof fn lemma_insert_isolated<S: ErasedStorage, A: Component<S>, B: Component<S>>(
    before: WorldView<S>,
    after: WorldView<S>,
    entity: Entity,
    component: A,
)
    requires
        before.wf(),
        before.inserts::<A>(after, entity, component),
        A::key() != B::key(),
    ensures
        after.has::<B>() == before.has::<B>(),
        after.components::<B>() == before.components::<B>(),
        forall|other: Entity|
            other != entity ==> (after.components::<A>().contains_key(other)
                == before.components::<A>().contains_key(other)) && after.components::<A>()[other]
                == before.components::<A>()[other],
{
}

/// Inserting `first` and then `second` for the same entity and type leaves
/// `second`, and is the same as inserting `second` alone: the table of the
/// type has one entry for the entity, not two.
pub proof fn lemma_insert_overwrites<S: ErasedStorage, T: Component<S>>(
    before: WorldView<S>,
    between: WorldView<S>,
    after: WorldView<S>,
    entity: Entity,
    first: T,
    second: T,
)
    requires
        before.wf(),
        before.inserts::<T>(between, entity, first),
        between.inserts::<T>(after, entity, second),
    ensures
        after.components::<T>().contains_key(entity),
        after.components::<T>()[entity] == second,
        after.components::<T>() == before.components::<T>().insert(entity, second),
        after.components::<T>().dom() == between.components::<T>().dom(),
        before.inserts::<T>(after, entity, second),
{
    assert(after.components::<T>() =~= before.components::<T>().insert(entity, second));
    assert(after.components::<T>().dom() =~= between.components::<T>().dom());
}

/// Once the component of type `T` of an entity was taken out, the entity has
/// none, no query over `T` names it, and the components of every other type
/// are as they were.
pub proof fn lemma_remove_forgets<S: ErasedStorage, T: Component<S>, U: Component<S>>(
    before: WorldView<S>,
    after: WorldView<S>,
    entity: Entity,
    rows: Seq<(Entity, &T)>,
)
    requires
        before.wf(),
        before.removes::<T>(after, entity),
        crate::storage::enumerates(rows, after.components::<T>()),
        T::key() != U::key(),
    ensures
        !after.components::<T>().contains_key(entity),
        forall|i: int| 0 <= i < rows.len() ==> (#[trigger] rows[i]).0 != entity,
        after.has::<U>() == before.has::<U>(),
        after.components::<U>() == before.components::<U>(),
{
}

/// A two-way join names an entity if and only if the entity has a value in
/// both tables, and then exactly once, with the values that the tables hold.
pub proof fn lemma_join2_membership<A, B>(
    rows: Seq<(Entity, &A, &B)>,
    a: Map<Entity, A>,
    b: Map<Entity, B>,
    entity: Entity,
)
    requires
        crate::join::joins2(rows, a, b),
    ensures
        (exists|i: int| 0 <= i < rows.len() && (#[trigger] rows[i]).0 == entity) <==> a.contains_key(
            entity,
        ) && b.contains_key(entity),
        forall|i: int, j: int|
            0 <= i < rows.len() && 0 <= j < rows.len() && (#[trigger] rows[i]).0 == entity && (
            #[trigger] rows[j]).0 == entity ==> i == j && *rows[i].1 == a[entity] && *rows[i].2
                == b[entity],
{
    assert forall|i: int, j: int|
        0 <= i < rows.len() && 0 <= j < rows.len() && (#[trigger] rows[i]).0 == entity && (
        #[trigger] rows[j]).0 == entity implies i == j && *rows[i].1 == a[entity] && *rows[i].2
        == b[entity] by {
        if i < j {
            assert(rows[i].0 != rows[j].0);
        }
        if j < i {
            assert(rows[j].0 != rows[i].0);
        }
    }
}

/// A query over one type names no entity that lacks a value of that type.
pub proof fn lemma_query_excludes<A>(rows: Seq<(Entity, &A)>, a: Map<Entity, A>, entity: Entity)
    requires
        crate::storage::enumerates(rows, a),
        !a.contains_key(entity),
    ensures
        forall|i: int| 0 <= i < rows.len() ==> (#[trigger] rows[i]).0 != entity,
{
}

/// A two-way join names no entity that lacks a value in either table.
pub proof fn lemma_join2_excludes<A, B>(
    rows: Seq<(Entity, &A, &B)>,
    a: Map<Entity, A>,
    b: Map<Entity, B>,
    entity: Entity,
)
    requires
        crate::join::joins2(rows, a, b),
        !a.contains_key(entity) || !b.contains_key(entity),
    ensures
        forall|i: int| 0 <= i < rows.len() ==> (#[trigger] rows[i]).0 != entity,
{
}

/// A three-way join names no entity that lacks a value in any of the three
/// tables.
pub proof fn lemma_join3_excludes<A, B, C>(
    rows: Seq<(Entity, &A, &B, &C)>,
    a: Map<Entity, A>,
    b: Map<Entity, B>,
    c: Map<Entity, C>,
    entity: Entity,
)
    requires
        crate::join::joins3(rows, a, b, c),
        !a.contains_key(entity) || !b.contains_key(entity) || !c.contains_key(entity),
    ensures
        forall|i: int| 0 <= i < rows.len() ==> (#[trigger] rows[i]).0 != entity,
{
}

/// A three-way join names an entity if and only if the entity has a value in
/// each of the three tables, and then exactly once, with the values that the
/// tables hold.
pub proof fn lemma_join3_membership<A, B, C>(
    rows: Seq<(Entity, &A, &B, &C)>,
    a: Map<Entity, A>,
    b: Map<Entity, B>,
    c: Map<Entity, C>,
    entity: Entity,
)
    requires
        crate::join::joins3(rows, a, b, c),
    ensures
        (exists|i: int| 0 <= i < rows.len() && (#[trigger] rows[i]).0 == entity) <==> a.contains_key(
            entity,
        ) && b.contains_key(entity) && c.contains_key(entity),
        forall|i: int, j: int|
            0 <= i < rows.len() && 0 <= j < rows.len() && (#[trigger] rows[i]).0 == entity && (
            #[trigger] rows[j]).0 == entity ==> i == j && *rows[i].1 == a[entity] && *rows[i].2
                == b[entity] && *rows[i].3 == c[entity],
{
    assert forall|i: int, j: int|
        0 <= i < rows.len() && 0 <= j < rows.len() && (#[trigger] rows[i]).0 == entity && (
        #[trigger] rows[j]).0 == entity implies i == j && *rows[i].1 == a[entity] && *rows[i].2
        == b[entity] && *rows[i].3 == c[entity] by {
        if i < j {
            assert(rows[i].0 != rows[j].0);
        }
        if j < i {
            assert(rows[j].0 != rows[i].0);
        }
    }
}

/// A query over a type that has no table is empty.
pub proof fn lemma_query_absent<S: ErasedStorage, A: Component<S>>(
    world: WorldView<S>,
    rows: Seq<(Entity, &A)>,
)
    requires
        crate::storage::enumerates(rows, world.components::<A>()),
        !world.has::<A>(),
    ensures
        rows.len() == 0,
{
    if rows.len() > 0 {
        assert(world.components::<A>().contains_key(rows[0].0));
    }
}

/// A two-way join in which either type has no table is empty, whatever the
/// table of the other holds.
pub proof fn lemma_join2_absent<S: ErasedStorage, A: Component<S>, B: Component<S>>(
    world: WorldView<S>,
    rows: Seq<(Entity, &A, &B)>,
)
    requires
        crate::join::joins2(rows, world.components::<A>(), world.components::<B>()),
        !world.has::<A>() || !world.has::<B>(),
    ensures
        rows.len() == 0,
{
    if rows.len() > 0 {
        assert(world.components::<A>().contains_key(rows[0].0));
        assert(world.components::<B>().contains_key(rows[0].0));
    }
}

/// A three-way join in which any of the types has no table is empty,
/// whatever the tables of the others hold.
pub proof fn lemma_join3_absent<
    S: ErasedStorage,
    A: Component<S>,
    B: Component<S>,
    C: Component<S>,
>(world: WorldView<S>, rows: Seq<(Entity, &A, &B, &C)>)
    requires
        crate::join::joins3(
            rows,
            world.components::<A>(),
            world.components::<B>(),
            world.components::<C>(),
        ),
        !world.has::<A>() || !world.has::<B>() || !world.has::<C>(),
    ensures
        rows.len() == 0,
{
    if rows.len() > 0 {
        assert(world.components::<A>().contains_key(rows[0].0));
        assert(world.components::<B>().contains_key(rows[0].0));
        assert(world.components::<C>().contains_key(rows[0].0));
    }
}

} // verus!
