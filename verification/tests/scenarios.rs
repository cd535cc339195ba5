use entity_store::components::{DirtyVisual, Interactable, InteractableState};
use entity_store::entity::Entity;
use entity_store::registry::{Component, ErasedStorage};
use entity_store::storage::Storage;
use entity_store::systems::{clear_dirty, dirty_states, hover_update};
use entity_store::world::World;

#[derive(Debug, Clone, Copy, PartialEq)]
struct Rect {
    left: f32,
    top: f32,
    right: f32,
    bottom: f32,
}

impl Rect {
    fn from_xywh(x: f32, y: f32, w: f32, h: f32) -> Rect {
        Rect { left: x, top: y, right: x + w, bottom: y + h }
    }
}

#[derive(Debug, Clone, Copy, PartialEq)]
struct Bounds {
    rect: Rect,
}

#[derive(Debug, Clone, Copy, PartialEq)]
struct Quad {
    rect: Rect,
    color: [f32; 4],
}

enum SceneStorage {
    Bounds(Storage<Bounds>),
    Quad(Storage<Quad>),
    Interactable(Storage<Interactable>),
    DirtyVisual(Storage<DirtyVisual>),
}

impl ErasedStorage for SceneStorage {
    fn tag(&self) -> u64 {
        match self {
            SceneStorage::Bounds(_) => 1,
            SceneStorage::Quad(_) => 2,
            SceneStorage::Interactable(_) => 3,
            SceneStorage::DirtyVisual(_) => 4,
        }
    }
}

impl Component<SceneStorage> for Bounds {
    fn key() -> u64 {
        1
    }

    fn type_key() -> u64 {
        1
    }

    fn table(handle: SceneStorage) -> Storage<Bounds> {
        match handle {
            SceneStorage::Bounds(storage) => storage,
            _ => unreachable!(),
        }
    }

    fn erase(storage: Storage<Bounds>) -> SceneStorage {
        SceneStorage::Bounds(storage)
    }

    fn downcast_ref(handle: &SceneStorage) -> Option<&Storage<Bounds>> {
        match handle {
            SceneStorage::Bounds(storage) => Some(storage),
            _ => None,
        }
    }

    fn downcast_mut(handle: &mut SceneStorage) -> Option<&mut Storage<Bounds>> {
        match handle {
            SceneStorage::Bounds(storage) => Some(storage),
            _ => None,
        }
    }
}

impl Component<SceneStorage> for Quad {
    fn key() -> u64 {
        2
    }

    fn type_key() -> u64 {
        2
    }

    fn table(handle: SceneStorage) -> Storage<Quad> {
        match handle {
            SceneStorage::Quad(storage) => storage,
            _ => unreachable!(),
        }
    }

    fn erase(storage: Storage<Quad>) -> SceneStorage {
        SceneStorage::Quad(storage)
    }

    fn downcast_ref(handle: &SceneStorage) -> Option<&Storage<Quad>> {
        match handle {
            SceneStorage::Quad(storage) => Some(storage),
            _ => None,
        }
    }

    fn downcast_mut(handle: &mut SceneStorage) -> Option<&mut Storage<Quad>> {
        match handle {
            SceneStorage::Quad(storage) => Some(storage),
            _ => None,
        }
    }
}

impl Component<SceneStorage> for Interactable {
    fn key() -> u64 {
        3
    }

    fn type_key() -> u64 {
        3
    }

    fn table(handle: SceneStorage) -> Storage<Interactable> {
        match handle {
            SceneStorage::Interactable(storage) => storage,
            _ => unreachable!(),
        }
    }

    fn erase(storage: Storage<Interactable>) -> SceneStorage {
        SceneStorage::Interactable(storage)
    }

    fn downcast_ref(handle: &SceneStorage) -> Option<&Storage<Interactable>> {
        match handle {
            SceneStorage::Interactable(storage) => Some(storage),
            _ => None,
        }
    }

    fn downcast_mut(handle: &mut SceneStorage) -> Option<&mut Storage<Interactable>> {
        match handle {
            SceneStorage::Interactable(storage) => Some(storage),
            _ => None,
        }
    }
}

impl Component<SceneStorage> for DirtyVisual {
    fn key() -> u64 {
        4
    }

    fn type_key() -> u64 {
        4
    }

    fn table(handle: SceneStorage) -> Storage<DirtyVisual> {
        match handle {
            SceneStorage::DirtyVisual(storage) => storage,
            _ => unreachable!(),
        }
    }

    fn erase(storage: Storage<DirtyVisual>) -> SceneStorage {
        SceneStorage::DirtyVisual(storage)
    }

    fn downcast_ref(handle: &SceneStorage) -> Option<&Storage<DirtyVisual>> {
        match handle {
            SceneStorage::DirtyVisual(storage) => Some(storage),
            _ => None,
        }
    }

    fn downcast_mut(handle: &mut SceneStorage) -> Option<&mut Storage<DirtyVisual>> {
        match handle {
            SceneStorage::DirtyVisual(storage) => Some(storage),
            _ => None,
        }
    }
}

fn color_of(state: InteractableState) -> [f32; 4] {
    match state {
        InteractableState::Default => [0.5, 0.5, 0.5, 1.0],
        InteractableState::Hovered => [0.6, 0.6, 0.6, 1.0],
        InteractableState::Pressed => [0.3, 0.3, 0.3, 1.0],
    }
}

fn add_button(world: &mut World<SceneStorage>, rect: Rect) -> Entity {
    let entity = world.spawn();
    world.insert(entity, Bounds { rect });
    world.insert(entity, Quad { rect, color: color_of(InteractableState::Default) });
    world.insert(entity, Interactable { state: InteractableState::Default });
    entity
}

fn hover_detect(world: &World<SceneStorage>, x: f32, y: f32) -> (Vec<Entity>, Vec<Entity>) {
    let mut hovered = Vec::new();
    let mut not_hovered = Vec::new();
    for (entity, bounds, _) in world.query2::<Bounds, Interactable>() {
        let rect = bounds.rect;
        if x >= rect.left && x <= rect.right && y >= rect.top && y <= rect.bottom {
            hovered.push(entity);
        } else {
            not_hovered.push(entity);
        }
    }
    (hovered, not_hovered)
}

fn recompute_colors(world: &mut World<SceneStorage>) {
    let updates = dirty_states(world);
    let quads = world.storage_mut::<Quad>().unwrap();
    for (entity, state) in updates {
        if let Some(quad) = quads.get_mut(entity) {
            quad.color = color_of(state);
        }
    }
}

fn scene() -> (World<SceneStorage>, Entity, Entity) {
    let mut world: World<SceneStorage> = World::new();
    let e1 = add_button(&mut world, Rect::from_xywh(30.0, 30.0, 30.0, 30.0));
    let e2 = add_button(&mut world, Rect::from_xywh(100.0, 200.0, 150.0, 300.0));
    (world, e1, e2)
}

#[test]
fn hover_query_inside_the_first_button_finds_it_alone() {
    let (world, e1, e2) = scene();
    let (hovered, not_hovered) = hover_detect(&world, 35.0, 35.0);
    assert_eq!(hovered, vec![e1]);
    assert_eq!(not_hovered, vec![e2]);
}

#[test]
fn hover_query_far_away_finds_nothing() {
    let (world, e1, e2) = scene();
    let (hovered, mut not_hovered) = hover_detect(&world, 500.0, 500.0);
    assert!(hovered.is_empty());
    not_hovered.sort_by_key(|e| e.0);
    assert_eq!(not_hovered, vec![e1, e2]);
}

#[test]
fn hover_query_counts_the_border_as_inside() {
    let (world, e1, _) = scene();
    assert_eq!(hover_detect(&world, 30.0, 60.0).0, vec![e1]);
    assert!(hover_detect(&world, 29.5, 60.0).0.is_empty());
}

#[test]
fn hover_query_passes_over_bounds_without_an_interactable() {
    let (mut world, e1, _) = scene();
    let plain = world.spawn();
    world.insert(plain, Bounds { rect: Rect::from_xywh(0.0, 0.0, 1000.0, 1000.0) });
    assert_eq!(hover_detect(&world, 35.0, 35.0).0, vec![e1]);
}

#[test]
fn dirty_entity_gets_the_color_of_its_state_and_the_other_is_untouched() {
    let (mut world, e1, e2) = scene();
    let untouched = [0.1, 0.2, 0.3, 0.4];
    world.storage_mut::<Quad>().unwrap().get_mut(e2).unwrap().color = untouched;
    world.storage_mut::<Interactable>().unwrap().get_mut(e1).unwrap().state =
        InteractableState::Pressed;
    world.storage_mut::<Interactable>().unwrap().get_mut(e2).unwrap().state =
        InteractableState::Hovered;
    world.insert(e1, DirtyVisual);
    recompute_colors(&mut world);
    let quads = world.storage::<Quad>().unwrap();
    assert_eq!(quads.get(e1).unwrap().color, [0.3, 0.3, 0.3, 1.0]);
    assert_eq!(quads.get(e2).unwrap().color, untouched);
    assert_eq!(quads.get(e2).unwrap().rect, Rect::from_xywh(100.0, 200.0, 150.0, 300.0));
}

#[test]
fn pointer_move_over_a_button_recolors_that_button_only() {
    let (mut world, e1, e2) = scene();
    let (hovered, not_hovered) = hover_detect(&world, 35.0, 35.0);
    assert!(hover_update(&mut world, &hovered, &not_hovered));
    recompute_colors(&mut world);
    let quads = world.storage::<Quad>().unwrap();
    assert_eq!(quads.get(e1).unwrap().color, [0.6, 0.6, 0.6, 1.0]);
    assert_eq!(quads.get(e2).unwrap().color, [0.5, 0.5, 0.5, 1.0]);
    assert_eq!(dirty_states(&world), vec![(e1, InteractableState::Hovered)]);
    clear_dirty(&mut world);
    assert!(dirty_states(&world).is_empty());
    let (hovered, not_hovered) = hover_detect(&world, 35.0, 35.0);
    assert!(!hover_update(&mut world, &hovered, &not_hovered));
    let (hovered, not_hovered) = hover_detect(&world, 500.0, 500.0);
    assert!(hover_update(&mut world, &hovered, &not_hovered));
    recompute_colors(&mut world);
    let quads = world.storage::<Quad>().unwrap();
    assert_eq!(quads.get(e1).unwrap().color, [0.5, 0.5, 0.5, 1.0]);
    assert_eq!(quads.get(e2).unwrap().color, [0.5, 0.5, 0.5, 1.0]);
}
