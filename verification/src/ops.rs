//! Concrete entity operations: the primitive units of work the composition
//! operators and the driver are exercised with.

use vstd::prelude::*;

use crate::access::{AccessDeclaration, AccessView};
use crate::table::ValueTable;
use crate::EntitySystem;

verus! {

/// Saturating addition on signed 64-bit values.
pub open spec fn sat_add64(a: i64, b: i64) -> i64 {
    if a + b > i64::MAX {
        i64::MAX
    } else if a + b < i64::MIN {
        i64::MIN
    } else {
        (a + b) as i64
    }
}

/// Adds `b` to `a`, saturating at the ends of the value range.
pub fn saturating_add64(a: i64, b: i64) -> (r: i64)
    ensures
        r == sat_add64(a, b),
{
    if b >= 0 {
        if a > i64::MAX - b {
            i64::MAX
        } else {
            a + b
        }
    } else {
        if a < i64::MIN - b {
            i64::MIN
        } else {
            a + b
        }
    }
}

/// An operation that adds a constant to one component and returns the new
/// value.  It claims read-write access to that component alone.
pub struct AddToComponent {
    /// The component type written.
    pub component: u64,
    /// The amount added on every run.
    pub amount: i64,
}

impl EntitySystem for AddToComponent {
    type In = ();

    type Out = i64;

    type Model = AddToComponent;

    open spec fn model(&self) -> AddToComponent {
        *self
    }

    open spec fn step(
        m: AddToComponent,
        entity: u64,
        input: (),
        data: Map<u64, i64>,
        resources: Map<u64, i64>,
    ) -> (AddToComponent, i64, Map<u64, i64>, Map<u64, i64>) {
        let out = sat_add64(data[m.component], m.amount);
        (m, out, data.insert(m.component, out), resources)
    }

    open spec fn declared(&self) -> AccessView {
        AccessView {
            reads: Set::empty(),
            writes: Set::empty().insert(self.component),
            withs: Set::empty().insert(self.component),
            withouts: Set::empty(),
            res_reads: Set::empty(),
            res_writes: Set::empty(),
        }
    }

    fn declared_access(&self) -> (d: AccessDeclaration) {
        let mut d = AccessDeclaration::new();
        d.add_write(self.component);
        assert(d@ =~= self.declared());
        d
    }

    fn run(&mut self, entity: u64, input: (), data: &mut ValueTable, resources: &mut ValueTable)
        -> (r: i64)
        ensures
            *final(self) == *old(self),
            r == sat_add64(old(data)@[old(self).component], old(self).amount),
            final(data)@ == old(data)@.insert(old(self).component, r),
            final(resources)@ == old(resources)@,
    {
        assert(old(self).declared().withs.contains(self.component));
        let v = data.get_existing(self.component);
        let nv = saturating_add64(v, self.amount);
        data.insert(self.component, nv);
        assert(final(data)@.dom() =~= old(data)@.dom());
        nv
    }
}

/// An operation that reads one component and returns its value, claiming
/// read-only access to it.
pub struct ReadComponent {
    /// The component type read.
    pub component: u64,
}

impl EntitySystem for ReadComponent {
    type In = ();

    type Out = i64;

    type Model = ReadComponent;

    open spec fn model(&self) -> ReadComponent {
        *self
    }

    open spec fn step(
        m: ReadComponent,
        entity: u64,
        input: (),
        data: Map<u64, i64>,
        resources: Map<u64, i64>,
    ) -> (ReadComponent, i64, Map<u64, i64>, Map<u64, i64>) {
        (m, data[m.component], data, resources)
    }

    open spec fn declared(&self) -> AccessView {
        AccessView {
            reads: Set::empty().insert(self.component),
            writes: Set::empty(),
            withs: Set::empty().insert(self.component),
            withouts: Set::empty(),
            res_reads: Set::empty(),
            res_writes: Set::empty(),
        }
    }

    fn declared_access(&self) -> (d: AccessDeclaration) {
        let mut d = AccessDeclaration::new();
        d.add_read(self.component);
        assert(d@ =~= self.declared());
        d
    }

    fn run(&mut self, entity: u64, input: (), data: &mut ValueTable, resources: &mut ValueTable)
        -> (r: i64)
        ensures
            *final(self) == *old(self),
            r == old(data)@[old(self).component],
            final(data)@ == old(data)@,
            final(resources)@ == old(resources)@,
    {
        assert(old(self).declared().withs.contains(self.component));
        data.get_existing(self.component)
    }
}

impl crate::ReadOnlyEntitySystem for ReadComponent {
    proof fn read_only_declaration(&self) {
    }
}

/// An operation that adds its per-run input to one component and returns
/// the new value.
pub struct AddInputToComponent {
    /// The component type written.
    pub component: u64,
}

impl EntitySystem for AddInputToComponent {
    type In = i64;

    type Out = i64;

    type Model = AddInputToComponent;

    open spec fn model(&self) -> AddInputToComponent {
        *self
    }

    open spec fn step(
        m: AddInputToComponent,
        entity: u64,
        input: i64,
        data: Map<u64, i64>,
        resources: Map<u64, i64>,
    ) -> (AddInputToComponent, i64, Map<u64, i64>, Map<u64, i64>) {
        let out = sat_add64(data[m.component], input);
        (m, out, data.insert(m.component, out), resources)
    }

    open spec fn declared(&self) -> AccessView {
        AccessView {
            reads: Set::empty(),
            writes: Set::empty().insert(self.component),
            withs: Set::empty().insert(self.component),
            withouts: Set::empty(),
            res_reads: Set::empty(),
            res_writes: Set::empty(),
        }
    }

    fn declared_access(&self) -> (d: AccessDeclaration) {
        let mut d = AccessDeclaration::new();
        d.add_write(self.component);
        assert(d@ =~= self.declared());
        d
    }

    fn run(&mut self, entity: u64, input: i64, data: &mut ValueTable, resources: &mut ValueTable)
        -> (r: i64)
        ensures
            *final(self) == *old(self),
            r == sat_add64(old(data)@[old(self).component], input),
            final(data)@ == old(data)@.insert(old(self).component, r),
            final(resources)@ == old(resources)@,
    {
        assert(old(self).declared().withs.contains(self.component));
        let v = data.get_existing(self.component);
        let nv = saturating_add64(v, input);
        data.insert(self.component, nv);
        assert(final(data)@.dom() =~= old(data)@.dom());
        nv
    }
}

/// An output adapter that adds a fixed offset to an integer output,
/// saturating at the ends of the value range.
pub struct OffsetOutput {
    /// Added to every output.
    pub offset: i64,
}

impl<S: EntitySystem<Out = i64>> crate::implementors::Adapt<S> for OffsetOutput {
    type Out = i64;

    open spec fn adapt_spec(&self, out: i64) -> i64 {
        sat_add64(out, self.offset)
    }

    fn adapt(&self, out: i64) -> (r: i64) {
        saturating_add64(out, self.offset)
    }
}

/// Folds pass outputs by saturating addition, seeded at zero.
pub struct SumFold;

impl crate::OutputFold<i64> for SumFold {
    type Acc = i64;

    open spec fn init_spec(&self) -> i64 {
        0
    }

    open spec fn fold_spec(&self, acc: i64, out: i64) -> i64 {
        sat_add64(acc, out)
    }

    fn init(&self) -> (r: i64) {
        0
    }

    fn fold(&self, acc: i64, out: i64) -> (r: i64) {
        saturating_add64(acc, out)
    }
}

/// An operation with state of its own, kept per entity: it counts how many
/// times each entity was visited, keyed by the entity's store handle.  The
/// entry for an entity is created on its first visit; since handles are
/// never reused, an entry left behind by a despawned entity can never be
/// mistaken for a later entity's.
pub struct VisitCounter {
    visits: ValueTable,
}

impl VisitCounter {
    #[verifier::type_invariant]
    spec fn type_wf(&self) -> bool {
        self.visits.wf()
    }

    /// How often each entity has been visited so far, by handle.
    pub closed spec fn visits_view(&self) -> Map<u64, i64> {
        self.visits@
    }

    /// A counter that has visited nothing.
    pub fn new() -> (r: VisitCounter)
        ensures
            r.visits_view() == Map::<u64, i64>::empty(),
    {
        VisitCounter { visits: ValueTable::new() }
    }

    /// How many times the entity with the given handle has been visited.
    pub fn visits_of(&self, entity: u64) -> (r: i64)
        ensures
            r == (if self.visits_view().dom().contains(entity) {
                self.visits_view()[entity]
            } else {
                0
            }),
    {
        proof {
            use_type_invariant(&*self);
        }
        match self.visits.get(entity) {
            Some(v) => v,
            None => 0,
        }
    }
}

impl EntitySystem for VisitCounter {
    type In = ();

    type Out = i64;

    type Model = Map<u64, i64>;

    closed spec fn model(&self) -> Map<u64, i64> {
        self.visits_view()
    }

    open spec fn step(
        m: Map<u64, i64>,
        entity: u64,
        input: (),
        data: Map<u64, i64>,
        resources: Map<u64, i64>,
    ) -> (Map<u64, i64>, i64, Map<u64, i64>, Map<u64, i64>) {
        let prior = if m.dom().contains(entity) {
            m[entity]
        } else {
            0
        };
        let next = sat_add64(prior, 1);
        (m.insert(entity, next), next, data, resources)
    }

    open spec fn declared(&self) -> AccessView {
        crate::access::empty_access()
    }

    fn declared_access(&self) -> (d: AccessDeclaration) {
        AccessDeclaration::new()
    }

    fn run(&mut self, entity: u64, input: (), data: &mut ValueTable, resources: &mut ValueTable)
        -> (r: i64)
        ensures
            r == sat_add64(
                if old(self).visits_view().dom().contains(entity) {
                    old(self).visits_view()[entity]
                } else {
                    0
                },
                1,
            ),
            final(self).visits_view() == old(self).visits_view().insert(entity, r),
            final(data)@ == old(data)@,
            final(resources)@ == old(resources)@,
    {
        proof {
            use_type_invariant(&*self);
        }
        let mut visits = ValueTable::new();
        core::mem::swap(&mut visits, &mut self.visits);
        let prior = match visits.get(entity) {
            Some(v) => v,
            None => 0,
        };
        let next = saturating_add64(prior, 1);
        visits.insert(entity, next);
        self.visits = visits;
        next
    }
}

impl crate::ReadOnlyEntitySystem for VisitCounter {
    proof fn read_only_declaration(&self) {
    }
}

/// An operation that does nothing but carry an explicit access declaration:
/// its eligibility is exactly parameterised by the declaration's present
/// and absent terms.
pub struct EligibilityProbe {
    declaration: AccessDeclaration,
}

impl EligibilityProbe {
    /// Wraps a declaration; the probe's eligibility is the declaration's.
    pub fn new(declaration: AccessDeclaration) -> (r: EligibilityProbe)
        ensures
            r.declared() == declaration@,
    {
        EligibilityProbe { declaration }
    }
}

impl EntitySystem for EligibilityProbe {
    type In = ();

    type Out = ();

    type Model = ();

    open spec fn model(&self) -> () {
        ()
    }

    open spec fn step(m: (), entity: u64, input: (), data: Map<u64, i64>, resources: Map<u64, i64>)
        -> ((), (), Map<u64, i64>, Map<u64, i64>) {
        ((), (), data, resources)
    }

    closed spec fn declared(&self) -> AccessView {
        self.declaration@
    }

    fn declared_access(&self) -> (d: AccessDeclaration) {
        self.declaration.duplicate()
    }

    fn run(&mut self, entity: u64, input: (), data: &mut ValueTable, resources: &mut ValueTable)
        -> (r: ())
        ensures
            *final(self) == *old(self),
            final(data)@ == old(data)@,
            final(resources)@ == old(resources)@,
    {
    }
}

} // verus!
