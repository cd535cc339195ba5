use vstd::prelude::*;

use crate::components::{DirtyVisual, Interactable, InteractableState, Parallax};
use crate::entity::Entity;
use crate::registry::{Component, ErasedStorage};
use crate::storage::Storage;
use crate::world::{World, WorldView};

verus! {

/// The state of an interactable after a pointer move that found the entities
/// of `hovered` under the pointer and those of `not_hovered` away from it.
/// Where an entity is named in both, `not_hovered` decides.
pub open spec fn hover_state(
    before: InteractableState,
    entity: Entity,
    hovered: Seq<Entity>,
    not_hovered: Seq<Entity>,
) -> InteractableState {
    if not_hovered.contains(entity) {
        InteractableState::Default
    } else if hovered.contains(entity) {
        InteractableState::Hovered
    } else {
        before
    }
}

/// Whether that pointer move changes the state of the interactable at any
/// point, which is when its visual has to be recomputed.
pub open spec fn hover_changes(
    before: InteractableState,
    entity: Entity,
    hovered: Seq<Entity>,
    not_hovered: Seq<Entity>,
) -> bool {
    ||| hovered.contains(entity) && before != InteractableState::Hovered
    ||| not_hovered.contains(entity) && (hovered.contains(entity) || before
        != InteractableState::Default)
}

/// `table` with the state of each entity of `entities` that it holds set to
/// `target`.
pub open spec fn retargeted(
    table: Map<Entity, Interactable>,
    entities: Seq<Entity>,
    target: InteractableState,
) -> Map<Entity, Interactable> {
    Map::new(
        |e: Entity| table.contains_key(e),
        |e: Entity|
            if entities.contains(e) {
                Interactable { state: target }
            } else {
                table[e]
            },
    )
}

/// Sets the state of each listed entity that `table` holds to `target`, and
/// appends to `changed` those whose state was another one.
fn retarget(
    table: &mut Storage<Interactable>,
    entities: &[Entity],
    target: InteractableState,
    changed: &mut Vec<Entity>,
)
    ensures
        final(table)@ == retargeted(old(table)@, entities@, target),
        forall|e: Entity| #[trigger]
            final(changed)@.contains(e) <==> old(changed)@.contains(e) || (entities@.contains(e)
                && old(table)@.contains_key(e) && old(table)@[e].state != target),
{
    let mut i: usize = 0;
    while i < entities.len()
        invariant
            i <= entities.len(),
            table@ == retargeted(old(table)@, entities@.take(i as int), target),
            forall|e: Entity|
                changed@.contains(e) <==> old(changed)@.contains(e) || (entities@.take(
                    i as int,
                ).contains(e) && old(table)@.contains_key(e) && old(table)@[e].state != target),
        decreases entities.len() - i,
    {
        let entity = entities[i];
        let ghost seen = entities@.take(i as int);
        let ghost listed = changed@;
        let mut differs = false;
        match table.get_mut(entity) {
            Some(interactable) => {
                if interactable.state != target {
                    interactable.state = target;
                    differs = true;
                }
            },
            None => {},
        }
        if differs {
            changed.push(entity);
        }
        proof {
            let next = entities@.take(i + 1);
            assert(next =~= seen.push(entity));
            assert forall|e: Entity| next.contains(e) <==> seen.contains(e) || e == entity by {
                if seen.contains(e) {
                    let k = choose|k: int| 0 <= k < seen.len() && seen[k] == e;
                    assert(next[k] == e);
                }
                if e == entity {
                    assert(next[i as int] == e);
                }
            }
            assert(table@ =~= retargeted(old(table)@, next, target));
            if differs {
                assert(changed@ == listed.push(entity));
                assert forall|e: Entity| changed@.contains(e) <==> listed.contains(e) || e
                    == entity by {
                    if listed.contains(e) {
                        let k = choose|k: int| 0 <= k < listed.len() && listed[k] == e;
                        assert(changed@[k] == e);
                    }
                    if e == entity {
                        assert(changed@[listed.len() as int] == e);
                    }
                }
                assert(!seen.contains(entity));
            }
        }
        i += 1;
    }
    assert(entities@.take(entities.len() as int) == entities@);
}

/// `after` is `before` once a pointer move was applied: each interactable
/// has the state that [`hover_state`] gives, exactly the interactables that
/// [`hover_changes`] names are newly marked dirty, and nothing else differs.
pub open spec fn hover_updates<S: ErasedStorage>(
    before: WorldView<S>,
    after: WorldView<S>,
    hovered: Seq<Entity>,
    not_hovered: Seq<Entity>,
) -> bool where Interactable: Component<S>, DirtyVisual: Component<S> {
    let states = before.components::<Interactable>();
    &&& after.entities == before.entities
    &&& after.has::<Interactable>() == before.has::<Interactable>()
    &&& after.components::<Interactable>() == Map::new(
        |e: Entity| states.contains_key(e),
        |e: Entity| Interactable { state: hover_state(states[e].state, e, hovered, not_hovered) },
    )
    &&& after.has::<DirtyVisual>() == (before.has::<DirtyVisual>() || any_hover_change(
        states,
        hovered,
        not_hovered,
    ))
    &&& after.components::<DirtyVisual>() == Map::new(
        |e: Entity|
            before.components::<DirtyVisual>().contains_key(e) || (states.contains_key(e)
                && hover_changes(states[e].state, e, hovered, not_hovered)),
        |e: Entity| DirtyVisual,
    )
    &&& forall|k: u64|
        #![trigger after.storages.contains_key(k)]
        #![trigger after.storages[k]]
        k != <Interactable as Component<S>>::key() && k != <DirtyVisual as Component<S>>::key()
            ==> after.storages.contains_key(k) == before.storages.contains_key(k)
            && after.storages[k] == before.storages[k]
}

/// Whether the pointer move changes the state of any interactable.
pub open spec fn any_hover_change(
    states: Map<Entity, Interactable>,
    hovered: Seq<Entity>,
    not_hovered: Seq<Entity>,
) -> bool {
    exists|e: Entity| #[trigger]
        states.contains_key(e) && hover_changes(states[e].state, e, hovered, not_hovered)
}

/// Applies a pointer move: the interactables among `hovered` become
/// `Hovered`, then those among `not_hovered` become `Default`, and each one
/// whose state changed on the way is marked with `DirtyVisual`. Entities
/// without an `Interactable` are passed over. Answers whether any state
/// changed.
pub fn hover_update<S: ErasedStorage>(
    world: &mut World<S>,
    hovered: &[Entity],
    not_hovered: &[Entity],
) -> (changed: bool) where Interactable: Component<S>, DirtyVisual: Component<S>
    requires
        old(world)@.wf(),
        <Interactable as Component<S>>::key() != <DirtyVisual as Component<S>>::key(),
    ensures
        final(world)@.wf(),
        hover_updates(old(world)@, final(world)@, hovered@, not_hovered@),
        changed == any_hover_change(
            old(world)@.components::<Interactable>(),
            hovered@,
            not_hovered@,
        ),
{
    let ghost before = world@;
    let ghost states = before.components::<Interactable>();
    let ghost key_d = <DirtyVisual as Component<S>>::key();
    let ghost mut passed = states;
    let ghost mut first: Seq<Entity> = Seq::empty();
    let mut changed: Vec<Entity> = Vec::new();
    match world.storage_mut::<Interactable>() {
        Some(table) => {
            retarget(table, hovered, InteractableState::Hovered, &mut changed);
            proof {
                passed = table@;
                first = changed@;
            }
            retarget(table, not_hovered, InteractableState::Default, &mut changed);
        },
        None => {},
    }
    let ghost mid = world@;
    proof {
        assert(mid.components::<Interactable>() =~= Map::new(
            |e: Entity| states.contains_key(e),
            |e: Entity|
                Interactable { state: hover_state(states[e].state, e, hovered@, not_hovered@) },
        ));
        assert forall|e: Entity| changed@.contains(e) <==> states.contains_key(e) && hover_changes(
            states[e].state,
            e,
            hovered@,
            not_hovered@,
        ) by {
            if before.has::<Interactable>() {
                assert(first.contains(e) <==> hovered@.contains(e) && states.contains_key(e)
                    && states[e].state != InteractableState::Hovered);
                assert(changed@.contains(e) <==> first.contains(e) || (not_hovered@.contains(e)
                    && passed.contains_key(e) && passed[e].state != InteractableState::Default));
            }
        }
    }
    let mut i: usize = 0;
    while i < changed.len()
        invariant
            i <= changed.len(),
            key_d == <DirtyVisual as Component<S>>::key(),
            world@.wf(),
            world@.entities == mid.entities,
            mid.same_except(world@, key_d),
            world@.has::<DirtyVisual>() == (mid.has::<DirtyVisual>() || i > 0),
            world@.components::<DirtyVisual>() == Map::new(
                |e: Entity|
                    mid.components::<DirtyVisual>().contains_key(e) || changed@.take(
                        i as int,
                    ).contains(e),
                |e: Entity| DirtyVisual,
            ),
        decreases changed.len() - i,
    {
        let entity = changed[i];
        world.insert(entity, DirtyVisual);
        proof {
            let seen = changed@.take(i as int);
            let next = changed@.take(i + 1);
            assert(next =~= seen.push(entity));
            assert forall|e: Entity| next.contains(e) <==> seen.contains(e) || e == entity by {
                if seen.contains(e) {
                    let k = choose|k: int| 0 <= k < seen.len() && seen[k] == e;
                    assert(next[k] == e);
                }
                if e == entity {
                    assert(next[i as int] == e);
                }
            }
            assert(world@.components::<DirtyVisual>() =~= Map::new(
                |e: Entity| mid.components::<DirtyVisual>().contains_key(e) || next.contains(e),
                |e: Entity| DirtyVisual,
            ));
        }
        i += 1;
    }
    proof {
        let after = world@;
        assert(changed@.take(changed.len() as int) == changed@);
        assert(after.components::<DirtyVisual>() =~= Map::new(
            |e: Entity|
                before.components::<DirtyVisual>().contains_key(e) || (states.contains_key(e)
                    && hover_changes(states[e].state, e, hovered@, not_hovered@)),
            |e: Entity| DirtyVisual,
        ));
        if changed.len() > 0 {
            assert(changed@.contains(changed@[0]));
        }
        if any_hover_change(states, hovered@, not_hovered@) {
            let e = choose|e: Entity| #[trigger]
                states.contains_key(e) && hover_changes(states[e].state, e, hovered@, not_hovered@);
            assert(changed@.contains(e));
        }
    }
    changed.len() > 0
}

/// The interactables that are marked dirty, each once and with its current
/// state: what a recomputation of their visuals starts from.
pub fn dirty_states<S: ErasedStorage>(world: &World<S>) -> (out: Vec<
    (Entity, InteractableState),
>) where Interactable: Component<S>, DirtyVisual: Component<S>
    requires
        world@.wf(),
    ensures
        forall|i: int, j: int| 0 <= i < j < out@.len() ==> out@[i].0 != out@[j].0,
        forall|i: int|
            0 <= i < out@.len() ==> {
                let row = #[trigger] out@[i];
                &&& world@.components::<DirtyVisual>().contains_key(row.0)
                &&& world@.components::<Interactable>().contains_key(row.0)
                &&& row.1 == world@.components::<Interactable>()[row.0].state
            },
        forall|e: Entity|
            world@.components::<Interactable>().contains_key(e) && world@.components::<
                DirtyVisual,
            >().contains_key(e) ==> exists|i: int| 0 <= i < out@.len() && (#[trigger] out@[i]).0 == e,
{
    let rows = world.query2::<Interactable, DirtyVisual>();
    let mut out: Vec<(Entity, InteractableState)> = Vec::new();
    let mut i: usize = 0;
    while i < rows.len()
        invariant
            i <= rows.len(),
            out@.len() == i,
            forall|j: int|
                0 <= j < i ==> (#[trigger] out@[j]).0 == rows@[j].0 && out@[j].1 == rows@[j].1.state,
        decreases rows.len() - i,
    {
        out.push((rows[i].0, rows[i].1.state));
        i += 1;
    }
    proof {
        assert forall|i: int| 0 <= i < out@.len() implies {
            let row = #[trigger] out@[i];
            &&& world@.components::<DirtyVisual>().contains_key(row.0)
            &&& world@.components::<Interactable>().contains_key(row.0)
            &&& row.1 == world@.components::<Interactable>()[row.0].state
        } by {
            assert(world@.components::<Interactable>().contains_key(rows@[i].0));
        }
        assert forall|e: Entity|
            world@.components::<Interactable>().contains_key(e) && world@.components::<
                DirtyVisual,
            >().contains_key(e) implies exists|i: int|
            0 <= i < out@.len() && (#[trigger] out@[i]).0 == e by {
            let i = choose|i: int| 0 <= i < rows@.len() && (#[trigger] rows@[i]).0 == e;
            assert(out@[i].0 == e);
        }
    }
    out
}

/// The entities that follow the pointer right now: those that have a `B`
/// (their geometry), a `Parallax` and an `Interactable` whose state is
/// `Hovered`, each once.
pub fn parallax_targets<S: ErasedStorage, B: Component<S>>(world: &World<S>) -> (out: Vec<
    Entity,
>) where Parallax: Component<S>, Interactable: Component<S>
    requires
        world@.wf(),
    ensures
        out@.no_duplicates(),
        forall|e: Entity|
            out@.contains(e) <==> {
                &&& world@.components::<B>().contains_key(e)
                &&& world@.components::<Parallax>().contains_key(e)
                &&& world@.components::<Interactable>().contains_key(e)
                &&& world@.components::<Interactable>()[e].state == InteractableState::Hovered
            },
{
    let rows = world.query3::<B, Parallax, Interactable>();
    let mut out: Vec<Entity> = Vec::new();
    let mut i: usize = 0;
    while i < rows.len()
        invariant
            i <= rows.len(),
            crate::join::joins3(
                rows@,
                world@.components::<B>(),
                world@.components::<Parallax>(),
                world@.components::<Interactable>(),
            ),
            out@.no_duplicates(),
            forall|e: Entity|
                out@.contains(e) <==> exists|j: int|
                    0 <= j < i && (#[trigger] rows@[j]).0 == e && rows@[j].3.state
                        == InteractableState::Hovered,
        decreases rows.len() - i,
    {
        let ghost listed = out@;
        let entity = rows[i].0;
        let hovered = rows[i].3.state == InteractableState::Hovered;
        if hovered {
            out.push(entity);
        }
        proof {
            assert forall|e: Entity|
                out@.contains(e) <==> exists|j: int|
                    0 <= j < i + 1 && (#[trigger] rows@[j]).0 == e && rows@[j].3.state
                        == InteractableState::Hovered by {
                if listed.contains(e) {
                    let j = choose|j: int|
                        0 <= j < i && (#[trigger] rows@[j]).0 == e && rows@[j].3.state
                            == InteractableState::Hovered;
                    assert(0 <= j < i + 1);
                    if hovered {
                        let k = choose|k: int| 0 <= k < listed.len() && listed[k] == e;
                        assert(out@[k] == e);
                    }
                }
                if hovered && e == entity {
                    assert(out@[listed.len() as int] == e);
                    assert(rows@[i as int].0 == e);
                }
                if out@.contains(e) && !listed.contains(e) {
                    let k = choose|k: int| 0 <= k < out@.len() && out@[k] == e;
                    assert(k == listed.len());
                    assert(rows@[i as int].0 == e);
                }
                if exists|j: int|
                    0 <= j < i + 1 && (#[trigger] rows@[j]).0 == e && rows@[j].3.state
                        == InteractableState::Hovered {
                    let j = choose|j: int|
                        0 <= j < i + 1 && (#[trigger] rows@[j]).0 == e && rows@[j].3.state
                            == InteractableState::Hovered;
                    if j < i {
                        assert(listed.contains(e));
                    }
                }
            }
            if hovered {
                assert(!listed.contains(entity)) by {
                    if listed.contains(entity) {
                        let j = choose|j: int|
                            0 <= j < i && (#[trigger] rows@[j]).0 == entity && rows@[j].3.state
                                == InteractableState::Hovered;
                        assert(rows@[j].0 != rows@[i as int].0);
                    }
                }
                assert(out@ == listed.push(entity));
            }
        }
        i += 1;
    }
    proof {
        let components = world@.components::<Interactable>();
        assert forall|e: Entity|
            out@.contains(e) <==> {
                &&& world@.components::<B>().contains_key(e)
                &&& world@.components::<Parallax>().contains_key(e)
                &&& components.contains_key(e)
                &&& components[e].state == InteractableState::Hovered
            } by {
            if out@.contains(e) {
                let j = choose|j: int|
                    0 <= j < rows@.len() && (#[trigger] rows@[j]).0 == e && rows@[j].3.state
                        == InteractableState::Hovered;
                assert(components.contains_key(rows@[j].0));
            }
            if world@.components::<B>().contains_key(e) && world@.components::<
                Parallax,
            >().contains_key(e) && components.contains_key(e) && components[e].state
                == InteractableState::Hovered {
                let j = choose|j: int| 0 <= j < rows@.len() && (#[trigger] rows@[j]).0 == e;
                assert(rows@[j].3.state == InteractableState::Hovered);
            }
        }
    }
    out
}

/// Takes every `DirtyVisual` mark out of the world, as is due once the
/// visuals have been recomputed. Nothing else changes.
pub fn clear_dirty<S: ErasedStorage>(world: &mut World<S>) where DirtyVisual: Component<S>
    requires
        old(world)@.wf(),
    ensures
        final(world)@.wf(),
        final(world)@.entities == old(world)@.entities,
        final(world)@.has::<DirtyVisual>() == old(world)@.has::<DirtyVisual>(),
        final(world)@.components::<DirtyVisual>() == Map::<Entity, DirtyVisual>::empty(),
        old(world)@.same_except(final(world)@, <DirtyVisual as Component<S>>::key()),
{
    match world.storage_mut::<DirtyVisual>() {
        Some(marks) => {
            let marked = marks.entities();
            let mut i: usize = 0;
            while i < marked.len()
                invariant
                    i <= marked.len(),
                    forall|e: Entity| #[trigger] marks@.contains_key(e) ==> marked@.contains(e),
                    forall|j: int| 0 <= j < i ==> !marks@.contains_key(#[trigger] marked@[j]),
                decreases marked.len() - i,
            {
                marks.remove(marked[i]);
                i += 1;
            }
            assert forall|e: Entity| !marks@.contains_key(e) by {
                if marks@.contains_key(e) {
                    let j = choose|j: int| 0 <= j < marked@.len() && marked@[j] == e;
                    assert(!marks@.contains_key(marked@[j]));
                }
            }
            assert(marks@ =~= Map::<Entity, DirtyVisual>::empty());
        },
        None => {},
    }
}

} // verus!
