use vstd::prelude::*;

use crate::registry::{Component, ErasedStorage};
use crate::storage::Storage;

verus! {

/// How the pointer currently relates to an interactable entity.
#[derive(Clone, Copy, Debug, PartialEq, Eq, Structural)]
pub enum InteractableState {
    Default,
    Hovered,
    Pressed,
}

/// Marks an entity as reacting to the pointer, and holds its current state.
#[derive(Clone, Copy, Debug, PartialEq, Eq, Structural)]
pub struct Interactable {
    pub state: InteractableState,
}

/// Marks an entity as following the pointer while it is hovered.
#[derive(Clone, Copy, Debug, PartialEq, Eq, Structural)]
pub struct Parallax;

/// Marks an entity whose visual has to be recomputed.
#[derive(Clone, Copy, Debug, PartialEq, Eq, Structural)]
pub struct DirtyVisual;

/// The erased table of one of this module's component types. It is the
/// schema of a world that holds these three and nothing else; a larger
/// schema is an enum of the same shape with more variants.
pub enum CoreStorage {
    Interactable(Storage<Interactable>),
    Parallax(Storage<Parallax>),
    DirtyVisual(Storage<DirtyVisual>),
}

impl ErasedStorage for CoreStorage {
    open spec fn tag(&self) -> u64 {
        match self {
            CoreStorage::Interactable(_) => 1,
            CoreStorage::Parallax(_) => 2,
            CoreStorage::DirtyVisual(_) => 3,
        }
    }
}

impl Component<CoreStorage> for Interactable {
    open spec fn key() -> u64 {
        1
    }

    fn type_key() -> (k: u64) {
        1
    }

    open spec fn table(handle: CoreStorage) -> Storage<Interactable> {
        match handle {
            CoreStorage::Interactable(storage) => storage,
            _ => arbitrary(),
        }
    }

    fn erase(storage: Storage<Interactable>) -> (handle: CoreStorage) {
        CoreStorage::Interactable(storage)
    }

    fn downcast_ref(handle: &CoreStorage) -> (r: Option<&Storage<Interactable>>) {
        match handle {
            CoreStorage::Interactable(storage) => Some(storage),
            _ => None,
        }
    }

    fn downcast_mut(handle: &mut CoreStorage) -> (r: Option<&mut Storage<Interactable>>) {
        match handle {
            CoreStorage::Interactable(storage) => Some(storage),
            _ => None,
        }
    }
}

impl Component<CoreStorage> for Parallax {
    open spec fn key() -> u64 {
        2
    }

    fn type_key() -> (k: u64) {
        2
    }

    open spec fn table(handle: CoreStorage) -> Storage<Parallax> {
        match handle {
            CoreStorage::Parallax(storage) => storage,
            _ => arbitrary(),
        }
    }

    fn erase(storage: Storage<Parallax>) -> (handle: CoreStorage) {
        CoreStorage::Parallax(storage)
    }

    fn downcast_ref(handle: &CoreStorage) -> (r: Option<&Storage<Parallax>>) {
        match handle {
            CoreStorage::Parallax(storage) => Some(storage),
            _ => None,
        }
    }

    fn downcast_mut(handle: &mut CoreStorage) -> (r: Option<&mut Storage<Parallax>>) {
        match handle {
            CoreStorage::Parallax(storage) => Some(storage),
            _ => None,
        }
    }
}

impl Component<CoreStorage> for DirtyVisual {
    open spec fn key() -> u64 {
        3
    }

    fn type_key() -> (k: u64) {
        3
    }

    open spec fn table(handle: CoreStorage) -> Storage<DirtyVisual> {
        match handle {
            CoreStorage::DirtyVisual(storage) => storage,
            _ => arbitrary(),
        }
    }

    fn erase(storage: Storage<DirtyVisual>) -> (handle: CoreStorage) {
        CoreStorage::DirtyVisual(storage)
    }

    fn downcast_ref(handle: &CoreStorage) -> (r: Option<&Storage<DirtyVisual>>) {
        match handle {
            CoreStorage::DirtyVisual(storage) => Some(storage),
            _ => None,
        }
    }

    fn downcast_mut(handle: &mut CoreStorage) -> (r: Option<&mut Storage<DirtyVisual>>) {
        match handle {
            CoreStorage::DirtyVisual(storage) => Some(storage),
            _ => None,
        }
    }
}

} // verus!
