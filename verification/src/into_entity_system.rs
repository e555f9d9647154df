//! Conversion of operation-shaped values into entity operations.

use vstd::prelude::*;

use crate::marked_entity_system::{MarkedEntitySystem, MarkedEntitySystemRunner};
use crate::EntitySystem;

verus! {

/// Marker for the conversion of a value that already is an entity
/// operation.
pub struct IsEntitySystem;

/// Marker for the conversion of a [`MarkedEntitySystem`].
pub struct IsMarkedEntitySystem;

/// Everything that can be turned into an entity operation.  The marker
/// keeps the blanket conversions apart; `into_spec` pins which operation
/// the conversion yields.
pub trait IntoEntitySystem<In, Out, Marker>: Sized {
    /// The resulting entity operation.
    type EntitySystem: EntitySystem<In = In, Out = Out>;

    /// The operation this value converts to.
    spec fn into_spec(self) -> Self::EntitySystem;

    /// Converts this value into an entity operation.
    fn into_entity_system(self) -> (r: Self::EntitySystem)
        ensures
            r == self.into_spec(),
    ;
}

impl<T: EntitySystem> IntoEntitySystem<T::In, T::Out, IsEntitySystem> for T {
    type EntitySystem = T;

    open spec fn into_spec(self) -> T {
        self
    }

    fn into_entity_system(self) -> (r: T) {
        self
    }
}

impl<Marker, T: MarkedEntitySystem<Marker>> IntoEntitySystem<
    T::In,
    T::Out,
    (IsMarkedEntitySystem, Marker),
> for T {
    type EntitySystem = MarkedEntitySystemRunner<Marker, T>;

    open spec fn into_spec(self) -> MarkedEntitySystemRunner<Marker, T> {
        MarkedEntitySystemRunner::spec_new(self)
    }

    fn into_entity_system(self) -> (r: MarkedEntitySystemRunner<Marker, T>) {
        MarkedEntitySystemRunner::new(self)
    }
}

} // verus!
