//! Built-in composition operators over [`EntitySystem`]: sequencing,
//! optional execution, and output adaptation.

use vstd::prelude::*;

use crate::access::{
    claims_only, eligible, lemma_eligibility_intersection, merged, AccessDeclaration, AccessView,
};
use crate::table::ValueTable;
use crate::{res_claims, EntitySystem};

verus! {

/// Sequencing: runs `A`, feeds its output to `B`, and returns `B`'s output.
/// Its declaration is the fused declaration of the two children, so it is
/// eligible exactly for the entities both children are eligible for, and the
/// children's conflicting claims are harmless because the children run one
/// after the other, never side by side.
pub struct PipeEntitySystem<A, B> {
    first: A,
    second: B,
}

impl<A: EntitySystem, B: EntitySystem<In = A::Out>> PipeEntitySystem<A, B> {
    /// The first child's declaration.
    pub closed spec fn first_declared(&self) -> AccessView {
        self.first.declared()
    }

    /// The second child's declaration.
    pub closed spec fn second_declared(&self) -> AccessView {
        self.second.declared()
    }
}

impl<A: EntitySystem, B: EntitySystem<In = A::Out>> EntitySystem for PipeEntitySystem<A, B> {
    type In = A::In;

    type Out = B::Out;

    type Model = (A::Model, B::Model);

    closed spec fn model(&self) -> (A::Model, B::Model) {
        (self.first.model(), self.second.model())
    }

    open spec fn step(
        m: (A::Model, B::Model),
        entity: u64,
        input: A::In,
        data: Map<u64, i64>,
        resources: Map<u64, i64>,
    ) -> ((A::Model, B::Model), B::Out, Map<u64, i64>, Map<u64, i64>) {
        let (ma, mid, data_a, res_a) = A::step(m.0, entity, input, data, resources);
        let (mb, out, data_b, res_b) = B::step(m.1, entity, mid, data_a, res_a);
        ((ma, mb), out, data_b, res_b)
    }

    closed spec fn declared(&self) -> AccessView {
        merged(self.first.declared(), self.second.declared())
    }

    fn declared_access(&self) -> (d: AccessDeclaration) {
        let first_access = self.first.declared_access();
        let second_access = self.second.declared_access();
        first_access.fuse(&second_access)
    }

    fn run(&mut self, entity: u64, input: A::In, data: &mut ValueTable, resources: &mut ValueTable)
        -> (r: B::Out) {
        proof {
            lemma_eligibility_intersection(
                self.first.declared(),
                self.second.declared(),
                old(data)@.dom(),
            );
            assert(res_claims(self.first.declared()).subset_of(old(resources)@.dom()));
            assert(res_claims(self.second.declared()).subset_of(old(resources)@.dom()));
        }
        let ghost m0 = self.model();
        let mid = self.first.run(entity, input, data, resources);
        let ghost step_a = A::step(m0.0, entity, input, old(data)@, old(resources)@);
        assert(self.first.model() == step_a.0 && mid == step_a.1 && data@ == step_a.2 && resources@
            == step_a.3);
        let out = self.second.run(entity, mid, data, resources);
        proof {
            let step_b = B::step(m0.1, entity, mid, step_a.2, step_a.3);
            assert(self.second.model() == step_b.0 && out == step_b.1 && data@ == step_b.2
                && resources@ == step_b.3);
            assert(Self::step(m0, entity, input, old(data)@, old(resources)@) == (
                (step_a.0, step_b.0),
                step_b.1,
                step_b.2,
                step_b.3,
            ));
        }
        out
    }
}

/// Pipes the output of `first` into `second`.  The pipe's declaration is the
/// fusion of the children's declarations, so by
/// [`lemma_eligibility_intersection`] it accepts exactly the entities both
/// children accept.
pub fn entity_system_pipe<A: EntitySystem, B: EntitySystem<In = A::Out>>(first: A, second: B) -> (r:
    PipeEntitySystem<A, B>)
    ensures
        r.declared() == merged(first.declared(), second.declared()),
        r.first_declared() == first.declared(),
        r.second_declared() == second.declared(),
{
    PipeEntitySystem { first, second }
}

/// A sequence is eligible for an entity exactly when both of its children
/// are: piping intersects eligibility, and nothing else.
pub proof fn lemma_pipe_eligibility_is_intersection<A: EntitySystem, B: EntitySystem<In = A::Out>>(
    pipe: PipeEntitySystem<A, B>,
    comps: Set<u64>,
)
    ensures
        eligible(pipe.declared(), comps) == (eligible(pipe.first_declared(), comps) && eligible(
            pipe.second_declared(),
            comps,
        )),
{
    lemma_eligibility_intersection(pipe.first.declared(), pipe.second.declared(), comps);
}

/// Optional execution: an operation that can run for any entity at all.  It
/// declares the inner operation's access claims but an empty filter; per
/// entity it resolves the inner operation's own requirement, runs the inner
/// operation if the entity satisfies it, and otherwise hands the input back
/// as a tagged failure.
pub struct OptionalEntitySystem<T> {
    inner: T,
}

impl<T: EntitySystem> OptionalEntitySystem<T> {
    /// The inner operation's declaration, which decides per entity whether
    /// the inner operation runs.
    pub closed spec fn inner_declared(&self) -> AccessView {
        self.inner.declared()
    }
}

impl<T: EntitySystem> EntitySystem for OptionalEntitySystem<T> {
    type In = T::In;

    type Out = Result<T::Out, T::In>;

    type Model = (AccessView, T::Model);

    closed spec fn model(&self) -> (AccessView, T::Model) {
        (self.inner.declared(), self.inner.model())
    }

    open spec fn step(
        m: (AccessView, T::Model),
        entity: u64,
        input: T::In,
        data: Map<u64, i64>,
        resources: Map<u64, i64>,
    ) -> ((AccessView, T::Model), Result<T::Out, T::In>, Map<u64, i64>, Map<u64, i64>) {
        if eligible(m.0, data.dom()) {
            let (mt, out, data_t, res_t) = T::step(m.1, entity, input, data, resources);
            ((m.0, mt), Ok(out), data_t, res_t)
        } else {
            (m, Err(input), data, resources)
        }
    }

    closed spec fn declared(&self) -> AccessView {
        claims_only(self.inner.declared())
    }

    fn declared_access(&self) -> (d: AccessDeclaration) {
        let inner_access = self.inner.declared_access();
        inner_access.strip_filters()
    }

    fn run(&mut self, entity: u64, input: T::In, data: &mut ValueTable, resources: &mut ValueTable)
        -> (r: Result<T::Out, T::In>)
        ensures
            eligible(old(self).inner_declared(), old(data)@.dom()) <==> r is Ok,
            !eligible(old(self).inner_declared(), old(data)@.dom()) ==> r == Result::<
                T::Out,
                T::In,
            >::Err(input) && final(data)@ == old(data)@ && final(resources)@ == old(resources)@,
            final(self).inner_declared() == old(self).inner_declared(),
    {
        let ghost m0 = self.model();
        let inner_access = self.inner.declared_access();
        let present = data.keys();
        if inner_access.matches_key_list(&present) {
            let out = self.inner.run(entity, input, data, resources);
            proof {
                let step_t = T::step(m0.1, entity, input, old(data)@, old(resources)@);
                assert(self.inner.model() == step_t.0 && out == step_t.1 && data@ == step_t.2
                    && resources@ == step_t.3);
            }
            Ok(out)
        } else {
            Err(input)
        }
    }
}

/// Wraps an operation so that it can be run for every entity, returning
/// `Err` with the untouched input where the inner operation's requirement is
/// not met.  The result's filter accepts every entity, while its access
/// claims are exactly the inner operation's.
pub fn optional<T: EntitySystem>(system: T) -> (r: OptionalEntitySystem<T>)
    ensures
        r.declared() == claims_only(system.declared()),
        r.inner_declared() == system.declared(),
{
    OptionalEntitySystem { inner: system }
}

/// An optional operation never shrinks eligibility: its filter accepts
/// every entity — in particular every entity its inner operation accepts —
/// while whether the inner operation actually runs is decided per entity
/// against the inner declaration.
pub proof fn lemma_optional_never_shrinks_eligibility<T: EntitySystem>(
    wide: OptionalEntitySystem<T>,
    comps: Set<u64>,
)
    ensures
        eligible(wide.declared(), comps),
        eligible(wide.inner_declared(), comps) ==> eligible(wide.declared(), comps),
{
}

/// Customises how an [`AdapterEntitySystem`] reshapes the inner operation's
/// output.  `adapt_spec` pins the transformation, so adapters stay honest:
/// the executable `adapt` must return exactly what the specification names,
/// and an adapter carries no evolving state of its own.
pub trait Adapt<S: EntitySystem>: Sized {
    /// The adapter's output type.
    type Out;

    /// What the adapter returns for a given inner output.
    spec fn adapt_spec(&self, out: S::Out) -> Self::Out;

    /// Reshapes one output of the inner operation.
    fn adapt(&self, out: S::Out) -> (r: Self::Out)
        ensures
            r == self.adapt_spec(out),
    ;
}

/// Output adaptation: runs the inner operation and hands its output to the
/// adapter.  Data, filter and resource requirements are exactly the inner
/// operation's; adaptation never changes eligibility.
pub struct AdapterEntitySystem<T, F> {
    system: T,
    func: F,
}

impl<T: EntitySystem, F: Adapt<T>> EntitySystem for AdapterEntitySystem<T, F> {
    type In = T::In;

    type Out = F::Out;

    type Model = (T::Model, F);

    closed spec fn model(&self) -> (T::Model, F) {
        (self.system.model(), self.func)
    }

    open spec fn step(
        m: (T::Model, F),
        entity: u64,
        input: T::In,
        data: Map<u64, i64>,
        resources: Map<u64, i64>,
    ) -> ((T::Model, F), F::Out, Map<u64, i64>, Map<u64, i64>) {
        let (mt, out, data_t, res_t) = T::step(m.0, entity, input, data, resources);
        ((mt, m.1), m.1.adapt_spec(out), data_t, res_t)
    }

    closed spec fn declared(&self) -> AccessView {
        self.system.declared()
    }

    fn declared_access(&self) -> (d: AccessDeclaration) {
        self.system.declared_access()
    }

    fn run(&mut self, entity: u64, input: T::In, data: &mut ValueTable, resources: &mut ValueTable)
        -> (r: F::Out) {
        let ghost m0 = self.model();
        let out = self.system.run(entity, input, data, resources);
        proof {
            let step_t = T::step(m0.0, entity, input, old(data)@, old(resources)@);
            assert(self.system.model() == step_t.0 && out == step_t.1 && data@ == step_t.2
                && resources@ == step_t.3);
        }
        self.func.adapt(out)
    }
}

/// Wraps an operation with an output adapter.  The adapted operation's
/// declaration is exactly the inner operation's.
pub fn adapt<T: EntitySystem, F: Adapt<T>>(system: T, func: F) -> (r: AdapterEntitySystem<T, F>)
    ensures
        r.declared() == system.declared(),
{
    AdapterEntitySystem { system, func }
}

} // verus!
