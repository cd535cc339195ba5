use vstd::prelude::*;

use crate::storage::Storage;

verus! {

/// A handle that can hold the table of any one component type of a schema,
/// with the table's concrete type hidden. The usual implementation is an
/// enum with one variant per component type, each holding the table of its
/// type, as [`crate::components::CoreStorage`] is.
pub trait ErasedStorage: Sized {
    /// Identity of the component type whose table this handle was built from.
    spec fn tag(&self) -> u64;
}

/// A component type of the schema whose erased handles have type `S`.
///
/// Two component types of one schema have different identities, and a
/// handle built from one of them is recovered as a table of that one only.
pub trait Component<S: ErasedStorage>: Sized {
    /// Identity of this component type within the schema.
    spec fn key() -> u64;

    /// Computes the identity of this component type.
    fn type_key() -> (k: u64)
        ensures
            k == Self::key(),
    ;

    /// The table inside a handle tagged with `key()`.
    spec fn table(handle: S) -> Storage<Self>;

    /// Hides the type of a table.
    fn erase(storage: Storage<Self>) -> (handle: S)
        ensures
            handle.tag() == Self::key(),
            Self::table(handle) == storage,
    ;

    /// Recovers the table from a handle, if the handle was built from this type.
    fn downcast_ref(handle: &S) -> (r: Option<&Storage<Self>>)
        ensures
            r is Some <==> handle.tag() == Self::key(),
            r matches Some(storage) ==> *storage == Self::table(*handle),
    ;

    /// Recovers the table from a handle for writing.
    fn downcast_mut(handle: &mut S) -> (r: Option<&mut Storage<Self>>)
        ensures
            final(handle).tag() == old(handle).tag(),
            match r {
                Some(storage) => {
                    &&& old(handle).tag() == Self::key()
                    &&& *storage == Self::table(*old(handle))
                    &&& Self::table(*final(handle)) == *final(storage)
                },
                None => old(handle).tag() != Self::key() && *final(handle) == *old(handle),
            },
    ;
}

} // verus!
