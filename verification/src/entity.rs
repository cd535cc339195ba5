use vstd::prelude::*;

verus! {

/// An opaque identifier for one entity. Identifiers are compared by value and
/// carry no data of their own; `0` is never handed out by a world.
#[derive(Clone, Copy, Debug, PartialEq, Eq, Hash, Structural)]
pub struct Entity(pub u32);

} // verus!
