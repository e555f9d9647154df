//! Function-shaped operations.  A type that only has the minimal shape of a
//! unit of work — a declaration and a run method — implements
//! [`MarkedEntitySystem`] under a marker that names the shape it was derived
//! from, and [`MarkedEntitySystemRunner`] adapts it to the full
//! [`EntitySystem`] interface.  The marker keeps blanket conversions for
//! different shapes from colliding.

use core::marker::PhantomData;

use vstd::prelude::*;

use crate::access::{eligible, AccessDeclaration, AccessView};
use crate::table::ValueTable;
use crate::{preserves_outside, res_claims, EntitySystem};

verus! {

/// The minimal capability an operation-shaped value has to offer: the same
/// declaration and per-entity run as [`EntitySystem`], under a marker type
/// that records which shape of value the implementation covers.
pub trait MarkedEntitySystem<Marker>: Sized {
    /// Input handed to each run.
    type In;

    /// Output of each run.
    type Out;

    /// The mathematical state of the operation, as in
    /// [`EntitySystem::Model`].
    type Model;

    /// The operation's current mathematical state.
    spec fn model(&self) -> Self::Model;

    /// What one run does, as in [`EntitySystem::step`].
    spec fn step(
        m: Self::Model,
        entity: u64,
        input: Self::In,
        data: Map<u64, i64>,
        resources: Map<u64, i64>,
    ) -> (Self::Model, Self::Out, Map<u64, i64>, Map<u64, i64>);

    /// The operation's access declaration, a constant of its state.
    spec fn declared(&self) -> AccessView;

    /// The declared access as a mergeable value.
    fn declared_access(&self) -> (d: AccessDeclaration)
        ensures
            d@ == self.declared(),
    ;

    /// Executes the operation once, for one entity, under the same contract
    /// as [`EntitySystem::run`].
    fn run(
        &mut self,
        entity: u64,
        input: Self::In,
        data: &mut ValueTable,
        resources: &mut ValueTable,
    ) -> (r: Self::Out)
        requires
            old(data).wf(),
            old(resources).wf(),
            eligible(old(self).declared(), old(data)@.dom()),
            res_claims(old(self).declared()).subset_of(old(resources)@.dom()),
        ensures
            final(self).declared() == old(self).declared(),
            (final(self).model(), r, final(data)@, final(resources)@) == Self::step(
                old(self).model(),
                entity,
                input,
                old(data)@,
                old(resources)@,
            ),
            final(data).wf(),
            final(resources).wf(),
            final(data)@.dom() == old(data)@.dom(),
            preserves_outside(old(data)@, final(data)@, old(self).declared().writes),
            final(resources)@.dom() == old(resources)@.dom(),
            preserves_outside(old(resources)@, final(resources)@, old(self).declared().res_writes),
    ;
}

/// Adapts a [`MarkedEntitySystem`] to the full [`EntitySystem`] interface
/// by plain delegation.
pub struct MarkedEntitySystemRunner<Marker, T> {
    function: T,
    marker: PhantomData<Marker>,
}

impl<Marker, T: MarkedEntitySystem<Marker>> MarkedEntitySystemRunner<Marker, T> {
    /// The runner holding a given operation.
    pub closed spec fn spec_new(function: T) -> MarkedEntitySystemRunner<Marker, T> {
        MarkedEntitySystemRunner { function, marker: PhantomData }
    }

    /// Wraps a function-shaped operation; the runner declares exactly what
    /// the wrapped operation declares.
    pub fn new(function: T) -> (r: MarkedEntitySystemRunner<Marker, T>)
        ensures
            r == MarkedEntitySystemRunner::spec_new(function),
            r.declared() == function.declared(),
    {
        MarkedEntitySystemRunner { function, marker: PhantomData }
    }
}

impl<Marker, T: MarkedEntitySystem<Marker>> EntitySystem for MarkedEntitySystemRunner<Marker, T> {
    type In = T::In;

    type Out = T::Out;

    type Model = T::Model;

    closed spec fn model(&self) -> T::Model {
        self.function.model()
    }

    open spec fn step(
        m: T::Model,
        entity: u64,
        input: T::In,
        data: Map<u64, i64>,
        resources: Map<u64, i64>,
    ) -> (T::Model, T::Out, Map<u64, i64>, Map<u64, i64>) {
        T::step(m, entity, input, data, resources)
    }

    closed spec fn declared(&self) -> AccessView {
        self.function.declared()
    }

    fn declared_access(&self) -> (d: AccessDeclaration) {
        self.function.declared_access()
    }

    fn run(&mut self, entity: u64, input: T::In, data: &mut ValueTable, resources: &mut ValueTable)
        -> (r: T::Out) {
        self.function.run(entity, input, data, resources)
    }
}

/// Marker for operations that touch auxiliary resources only and need no
/// entity data at all.
pub struct IsSystemParamFunction;

/// A resource-only operation: adds a constant to one auxiliary resource and
/// returns the new value.  It claims no component and filters nothing, so
/// it runs for every entity of a pass.
pub struct ResourceAdd {
    /// The resource written.
    pub resource: u64,
    /// The amount added on every run.
    pub amount: i64,
}

impl MarkedEntitySystem<IsSystemParamFunction> for ResourceAdd {
    type In = ();

    type Out = i64;

    type Model = ResourceAdd;

    open spec fn model(&self) -> ResourceAdd {
        *self
    }

    open spec fn step(
        m: ResourceAdd,
        entity: u64,
        input: (),
        data: Map<u64, i64>,
        resources: Map<u64, i64>,
    ) -> (ResourceAdd, i64, Map<u64, i64>, Map<u64, i64>) {
        let out = crate::ops::sat_add64(resources[m.resource], m.amount);
        (m, out, data, resources.insert(m.resource, out))
    }

    open spec fn declared(&self) -> AccessView {
        AccessView {
            reads: Set::empty(),
            writes: Set::empty(),
            withs: Set::empty(),
            withouts: Set::empty(),
            res_reads: Set::empty(),
            res_writes: Set::empty().insert(self.resource),
        }
    }

    fn declared_access(&self) -> (d: AccessDeclaration) {
        let mut d = AccessDeclaration::new();
        d.add_resource_write(self.resource);
        assert(d@ =~= self.declared());
        d
    }

    fn run(&mut self, entity: u64, input: (), data: &mut ValueTable, resources: &mut ValueTable)
        -> (r: i64)
        ensures
            *final(self) == *old(self),
            r == crate::ops::sat_add64(old(resources)@[old(self).resource], old(self).amount),
            final(resources)@ == old(resources)@.insert(old(self).resource, r),
            final(data)@ == old(data)@,
    {
        assert(res_claims(old(self).declared()).contains(self.resource));
        let v = resources.get_existing(self.resource);
        let nv = crate::ops::saturating_add64(v, self.amount);
        resources.insert(self.resource, nv);
        assert(final(resources)@.dom() =~= old(resources)@.dom());
        nv
    }
}

} // verus!
