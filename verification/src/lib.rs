//! Per-entity units of work over a shared record store.
//!
//! An *entity operation* declares, per component type, what it reads, writes,
//! requires present or requires absent.  Those declarations are merged when
//! operations are composed (sequencing, optional execution, output mapping),
//! conflicts are detected at composition time, and a driver runs a composed
//! operation over exactly the entities whose component sets satisfy the merged
//! requirement.

use vstd::prelude::*;

pub mod access;
pub mod disjoint_view;
pub mod implementors;
pub mod into_entity_system;
pub mod marked_entity_system;
pub mod ops;
pub mod store;
pub mod table;

use crate::access::{eligible, AccessDeclaration, AccessView};
use crate::table::ValueTable;

verus! {

/// The resource identifiers a declaration claims in any mode.
pub open spec fn res_claims(a: AccessView) -> Set<u64> {
    a.res_reads.union(a.res_writes)
}

/// Every key outside `writes` that `old_m` holds is still held by `new_m`,
/// with its old value: the frame a well-behaved operation leaves untouched.
pub open spec fn preserves_outside(
    old_m: Map<u64, i64>,
    new_m: Map<u64, i64>,
    writes: Set<u64>,
) -> bool {
    forall|c: u64|
        old_m.dom().contains(c) && !writes.contains(c) ==> new_m.dom().contains(c) && new_m[c]
            == old_m[c]
}

/// A unit of per-entity work.
///
/// An entity operation declares, once and for all, which component types it
/// reads and writes, which it requires present or absent, and which
/// auxiliary resources it touches.  [`run`](EntitySystem::run) executes the
/// operation for exactly one entity whose data and resources the caller has
/// already resolved and validated; it never iterates entities itself.
///
/// The contract of `run` is the core of the library, in two halves.  The
/// safety half: the declaration is constant across runs, and a run never
/// grows or shrinks the entity's component set, never touches a component
/// value outside its declared write set, and never touches a resource
/// outside its declared resource write set.  The functional half: what a
/// run returns, what it writes, and how the operation's own state evolves
/// is exactly [`step`](EntitySystem::step) of the operation's
/// [`model`](EntitySystem::model) — a mathematical function of the state,
/// the entity, the input, the data and the resources.  Every
/// implementation, including every composition operator, proves both.
pub trait EntitySystem: Sized {
    /// Input handed to each run.
    type In;

    /// Output of each run.
    type Out;

    /// The mathematical state of the operation: everything a run's outcome
    /// depends on and everything a run may change in the operation itself.
    type Model;

    /// The operation's current mathematical state.
    spec fn model(&self) -> Self::Model;

    /// What one run does, as a function of the mathematical state, the
    /// entity's handle, the input, the entity's component values and the
    /// pass's resources: the state afterwards, the output, the component
    /// values afterwards and the resources afterwards.
    spec fn step(
        m: Self::Model,
        entity: u64,
        input: Self::In,
        data: Map<u64, i64>,
        resources: Map<u64, i64>,
    ) -> (Self::Model, Self::Out, Map<u64, i64>, Map<u64, i64>);

    /// The operation's access declaration, a constant of its state.
    spec fn declared(&self) -> AccessView;

    /// The declared access, as a value the scheduler can merge and check
    /// against other operations' declarations.
    fn declared_access(&self) -> (d: AccessDeclaration)
        ensures
            d@ == self.declared(),
    ;

    /// Executes the operation once, for one entity.  `entity` is the
    /// entity's store handle, under which an operation may keep per-entity
    /// state of its own; `data` holds the entity's component values,
    /// `resources` the auxiliary resources of the pass.  The entity
    /// satisfies the declaration's existence terms and the resources cover
    /// the declaration's resource claims.
    fn run(
        &mut self,
        entity: u64,
        input: Self::In,
        data: &mut ValueTable,
        resources: &mut ValueTable,
    ) -> (r: Self::Out)
        requires
            old(data).wf(),
            old(resources).wf(),
            eligible(old(self).declared(), old(data)@.dom()),
            res_claims(old(self).declared()).subset_of(old(resources)@.dom()),
        ensures
            final(self).declared() == old(self).declared(),
            (final(self).model(), r, final(data)@, final(resources)@) == Self::step(
                old(self).model(),
                entity,
                input,
                old(data)@,
                old(resources)@,
            ),
            final(data).wf(),
            final(resources).wf(),
            final(data)@.dom() == old(data)@.dom(),
            preserves_outside(old(data)@, final(data)@, old(self).declared().writes),
            final(resources)@.dom() == old(resources)@.dom(),
            preserves_outside(old(resources)@, final(resources)@, old(self).declared().res_writes),
    ;
}

/// Folds the outputs of one pass into an accumulator, seeded at a zero
/// value the folder names.  `fold_spec` pins the combining step, so the
/// accumulated result of a pass is determined by the outputs alone.
pub trait OutputFold<Out>: Sized {
    /// The accumulator type.
    type Acc;

    /// The seed value.
    spec fn init_spec(&self) -> Self::Acc;

    /// What folding one output into the accumulator yields.
    spec fn fold_spec(&self, acc: Self::Acc, out: Out) -> Self::Acc;

    /// The seed value, as a runtime value.
    fn init(&self) -> (r: Self::Acc)
        ensures
            r == self.init_spec(),
    ;

    /// Folds one output into the accumulator.
    fn fold(&self, acc: Self::Acc, out: Out) -> (r: Self::Acc)
        ensures
            r == self.fold_spec(acc, out),
    ;
}

/// The left fold of a folder's combining step over a sequence of outputs,
/// starting from `acc`.
pub open spec fn fold_outputs_from<Out, F: OutputFold<Out>>(
    folder: F,
    acc: F::Acc,
    s: Seq<Out>,
) -> F::Acc
    decreases s.len(),
{
    if s.len() == 0 {
        acc
    } else {
        fold_outputs_from(folder, folder.fold_spec(acc, s.first()), s.drop_first())
    }
}

/// Folds a pass's outputs in visit order, seeded at the folder's initial
/// value.
#[verifier::loop_isolation(false)]
pub fn fold_outputs<Out, F: OutputFold<Out>>(folder: &F, outs: Vec<Out>) -> (r: F::Acc)
    ensures
        r == fold_outputs_from(*folder, folder.init_spec(), outs@),
{
    let ghost all = outs@;
    let mut remaining = outs;
    let mut acc = folder.init();
    while remaining.len() > 0
        invariant
            fold_outputs_from(*folder, folder.init_spec(), all) == fold_outputs_from(
                *folder,
                acc,
                remaining@,
            ),
        decreases remaining.len(),
    {
        let ghost before = remaining@;
        let out = remaining.remove(0);
        assert(remaining@ =~= before.drop_first());
        acc = folder.fold(acc, out);
    }
    acc
}

/// An entity operation that only reads: its declaration claims no
/// component write and no resource write, which the implementor proves.
pub trait ReadOnlyEntitySystem: EntitySystem {
    /// The declared write sets are empty.
    proof fn read_only_declaration(&self)
        ensures
            self.declared().writes == Set::<u64>::empty(),
            self.declared().res_writes == Set::<u64>::empty(),
    ;
}

} // verus!
