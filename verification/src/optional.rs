//! A two-variant container: either nothing, or a single payload. Deep
//! duplication of the container is available exactly when the payload type
//! can be duplicated, and is structural: the variant is preserved and a
//! payload is duplicated by its own `clone`.

use vstd::prelude::*;

verus! {

/// Either no value at all, or one value of type `T`.
pub enum SomethingOrNothing<T> {
    Nothing,
    Something(T),
}

impl<T: Clone> Clone for SomethingOrNothing<T> {
    /// Structural duplication. The payload is inspected through a borrow and
    /// duplicated by `T`'s own `clone`; ownership never leaves `self`, and
    /// the result inhabits the same variant.
    fn clone(&self) -> (r: Self)
        ensures
            self is Nothing ==> r is Nothing,
            self is Something ==> r is Something && cloned::<T>(self->Something_0, r->Something_0),
    {
        match self {
            SomethingOrNothing::Nothing => SomethingOrNothing::Nothing,
            SomethingOrNothing::Something(v) => SomethingOrNothing::Something(v.clone()),
        }
    }
}

} // verus!
