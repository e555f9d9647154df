//! A minimal record store: entities in enumeration order, each holding one
//! [`ValueTable`] of component values.  The driver iterates it; operations
//! never touch it directly.

use vstd::prelude::*;

use crate::access::{eligible, AccessView};
use crate::table::ValueTable;
use crate::{preserves_outside, res_claims, EntitySystem};

verus! {

/// How many records of `s` satisfy the existence terms of `dv`.
pub open spec fn count_eligible(dv: AccessView, s: Seq<RecView>) -> nat
    decreases s.len(),
{
    if s.len() == 0 {
        0
    } else {
        count_eligible(dv, s.drop_last()) + (if eligible(dv, s.last().comps.dom()) {
            1nat
        } else {
            0nat
        })
    }
}

/// What one full pass of an operation does, record by record in store
/// order: for each record that satisfies the existence terms of `dv`, the
/// operation's [`step`](crate::EntitySystem::step) is taken once, threading
/// the operation's state and the resources through the pass; other records
/// are left as they are.  The result is the operation's state afterwards,
/// the outputs in visit order, the records afterwards, and the resources
/// afterwards.
pub open spec fn pass_spec<O: EntitySystem>(
    m: O::Model,
    input: O::In,
    dv: AccessView,
    s: Seq<RecView>,
    resources: Map<u64, i64>,
) -> (O::Model, Seq<O::Out>, Seq<RecView>, Map<u64, i64>)
    decreases s.len(),
{
    if s.len() == 0 {
        (m, Seq::empty(), Seq::empty(), resources)
    } else {
        let first = s.first();
        if eligible(dv, first.comps.dom()) {
            let (m1, out, data1, res1) = O::step(m, first.id, input, first.comps, resources);
            let (mf, outs, recs, resf) = pass_spec::<O>(m1, input, dv, s.drop_first(), res1);
            (mf, seq![out] + outs, seq![RecView { id: first.id, comps: data1 }] + recs, resf)
        } else {
            let (mf, outs, recs, resf) = pass_spec::<O>(m, input, dv, s.drop_first(), resources);
            (mf, outs, seq![first] + recs, resf)
        }
    }
}

/// Mathematical content of one stored entity: its identifier and the map
/// from present component types to their values.
#[verifier::ext_equal]
pub ghost struct RecView {
    pub id: u64,
    pub comps: Map<u64, i64>,
}

/// One stored entity.
#[derive(Debug)]
pub struct EntityRecord {
    pub(crate) id: u64,
    pub(crate) comps: ValueTable,
}

impl View for EntityRecord {
    type V = RecView;

    closed spec fn view(&self) -> RecView {
        RecView { id: self.id, comps: self.comps@ }
    }
}

/// The record store: entities in spawn order, identified by handles that are
/// never reused.
#[derive(Debug)]
pub struct Store {
    pub(crate) next_id: u64,
    pub(crate) entities: Vec<EntityRecord>,
}

impl View for Store {
    type V = Seq<RecView>;

    closed spec fn view(&self) -> Seq<RecView> {
        self.entities@.map_values(|r: EntityRecord| r@)
    }
}

impl Store {
    /// Entity identifiers are unique, smaller than the next handle, and
    /// every component table is well formed.
    pub closed spec fn wf(&self) -> bool {
        &&& forall|i: int| 0 <= i < self.entities@.len() ==> (#[trigger] self.entities@[i]).comps.wf()
        &&& forall|i: int, j: int|
            0 <= i < j < self.entities@.len() ==> self.entities@[i].id != self.entities@[j].id
        &&& forall|i: int| 0 <= i < self.entities@.len() ==> (#[trigger] self.entities@[i]).id
            < self.next_id
    }

    /// The handle the next spawned entity will receive.
    pub closed spec fn next_handle(&self) -> u64 {
        self.next_id
    }

    /// An empty store.
    pub fn new() -> (r: Store)
        ensures
            r.wf(),
            r@ == Seq::<RecView>::empty(),
            r.next_handle() == 0,
    {
        let r = Store { next_id: 0, entities: Vec::new() };
        assert(r@ =~= Seq::<RecView>::empty());
        r
    }

    /// How many entities the store currently holds.
    pub fn entity_count(&self) -> (r: usize)
        ensures
            r == self@.len(),
    {
        self.entities.len()
    }

    /// Adds an entity holding the given component values and returns its
    /// fresh handle, which differs from the handle of every entity spawned
    /// before it.
    pub fn spawn(&mut self, comps: ValueTable) -> (r: u64)
        requires
            old(self).wf(),
            comps.wf(),
            old(self).next_handle() < u64::MAX,
        ensures
            final(self).wf(),
            r == old(self).next_handle(),
            final(self).next_handle() == old(self).next_handle() + 1,
            final(self)@ == old(self)@.push(RecView { id: r, comps: comps@ }),
            forall|i: int| 0 <= i < old(self)@.len() ==> old(self)@[i].id != r,
    {
        let id = self.next_id;
        self.next_id = self.next_id + 1;
        self.entities.push(EntityRecord { id, comps });
        proof {
            assert(self@ =~= old(self)@.push(RecView { id, comps: comps@ }));
            assert forall|i: int| 0 <= i < old(self)@.len() implies old(self)@[i].id != id by {
                assert(old(self).entities@[i].id < id);
            }
        }
        id
    }

    /// Removes the entity with the given handle, keeping the order of the
    /// others; reports whether such an entity existed.
    #[verifier::loop_isolation(false)]
    pub fn despawn(&mut self, id: u64) -> (r: bool)
        requires
            old(self).wf(),
        ensures
            final(self).wf(),
            final(self).next_handle() == old(self).next_handle(),
            r == exists|i: int| 0 <= i < old(self)@.len() && old(self)@[i].id == id,
            r ==> exists|i: int|
                0 <= i < old(self)@.len() && old(self)@[i].id == id && final(self)@ == old(
                    self,
                )@.remove(i),
            !r ==> final(self)@ == old(self)@,
    {
        let mut i: usize = 0;
        while i < self.entities.len()
            invariant
                self == old(self),
                i <= self.entities.len(),
                forall|j: int| 0 <= j < i ==> self.entities@[j].id != id,
            decreases self.entities.len() - i,
        {
            if self.entities[i].id == id {
                self.entities.remove(i);
                proof {
                    assert(old(self)@[i as int].id == id);
                    assert(self@ =~= old(self)@.remove(i as int));
                }
                return true;
            }
            i += 1;
        }
        assert forall|j: int| 0 <= j < old(self)@.len() implies old(self)@[j].id != id by {
            assert(old(self).entities@[j].id != id);
        }
        false
    }

    /// The value of component `c` on the entity with handle `id`, if that
    /// entity exists and holds the component.
    #[verifier::loop_isolation(false)]
    pub fn get_component(&self, id: u64, c: u64) -> (r: Option<i64>)
        requires
            self.wf(),
        ensures
            r is Some <==> exists|i: int|
                0 <= i < self@.len() && self@[i].id == id && self@[i].comps.dom().contains(c),
            forall|i: int|
                0 <= i < self@.len() && self@[i].id == id ==> r == (if self@[i].comps.dom().contains(
                    c,
                ) {
                    Some(self@[i].comps[c])
                } else {
                    Option::<i64>::None
                }),
    {
        let mut i: usize = 0;
        while i < self.entities.len()
            invariant
                self.wf(),
                i <= self.entities.len(),
                forall|j: int| 0 <= j < i ==> self.entities@[j].id != id,
            decreases self.entities.len() - i,
        {
            if self.entities[i].id == id {
                let r = self.entities[i].comps.get(c);
                proof {
                    assert(self@[i as int].id == id);
                    assert(self@[i as int].comps == self.entities@[i as int].comps@);
                    if r is Some {
                        assert(self@[i as int].comps.dom().contains(c));
                    }
                    assert forall|j: int|
                        0 <= j < self@.len() && self@[j].id == id implies j == i as int by {
                        if j < i as int {
                            assert(self.entities@[j].id != self.entities@[i as int].id);
                        }
                        if j > i as int {
                            assert(self.entities@[i as int].id != self.entities@[j].id);
                        }
                    }
                }
                return r;
            }
            i += 1;
        }
        assert forall|i: int| !(0 <= i < self@.len() && self@[i].id == id) by {
            if 0 <= i < self@.len() {
                assert(self.entities@[i].id != id);
            }
        }
        None
    }

    /// One pass of the execution driver.  Resolves the operation's
    /// declaration once, visits every entity exactly once in store order,
    /// and for each eligible entity — one satisfying the declaration's
    /// existence terms — runs the operation on that entity's data, the
    /// pass input and the shared resources, collecting the outputs in visit
    /// order.  Ineligible entities are skipped untouched; no entity is
    /// spawned or despawned; eligible entities keep their component sets
    /// and every value outside the declared write set.  The outputs, the
    /// store afterwards, the resources afterwards and the operation's state
    /// afterwards are exactly what [`pass_spec`] names.
    #[verifier::loop_isolation(false)]
    pub fn run_pass<O: EntitySystem>(
        &mut self,
        op: &mut O,
        input: O::In,
        resources: &mut ValueTable,
    ) -> (outs: Vec<O::Out>) where O::In: Copy
        requires
            old(self).wf(),
            old(resources).wf(),
            res_claims(old(op).declared()).subset_of(old(resources)@.dom()),
        ensures
            final(self).wf(),
            final(self).next_handle() == old(self).next_handle(),
            final(self)@.len() == old(self)@.len(),
            forall|j: int|
                0 <= j < old(self)@.len() ==> final(self)@[j].id == old(self)@[j].id
                    && final(self)@[j].comps.dom() == old(self)@[j].comps.dom(),
            forall|j: int|
                0 <= j < old(self)@.len() && !eligible(
                    old(op).declared(),
                    old(self)@[j].comps.dom(),
                ) ==> final(self)@[j] == old(self)@[j],
            forall|j: int|
                0 <= j < old(self)@.len() && eligible(
                    old(op).declared(),
                    old(self)@[j].comps.dom(),
                ) ==> preserves_outside(
                    old(self)@[j].comps,
                    final(self)@[j].comps,
                    old(op).declared().writes,
                ),
            outs@.len() == count_eligible(old(op).declared(), old(self)@),
            ({
                let pr = pass_spec::<O>(
                    old(op).model(),
                    input,
                    old(op).declared(),
                    old(self)@,
                    old(resources)@,
                );
                final(op).model() == pr.0 && outs@ == pr.1 && final(self)@ == pr.2
                    && final(resources)@ == pr.3
            }),
            final(op).declared() == old(op).declared(),
            final(resources).wf(),
            final(resources)@.dom() == old(resources)@.dom(),
            preserves_outside(old(resources)@, final(resources)@, old(op).declared().res_writes),
    {
        let decl = op.declared_access();
        let ghost dv = old(op).declared();
        let ghost m0 = old(op).model();
        let ghost pr = pass_spec::<O>(m0, input, dv, old(self)@, old(resources)@);
        proof {
            assert(old(self)@.skip(0) =~= old(self)@);
        }
        let mut outs: Vec<O::Out> = Vec::new();
        let n = self.entities.len();
        let mut i: usize = 0;
        proof {
            assert(Seq::<O::Out>::empty() + pr.1 =~= pr.1);
            assert(Seq::<RecView>::empty() + pr.2 =~= pr.2);
            assert(self@.take(0) =~= Seq::<RecView>::empty());
        }
        while i < n
            invariant
                i <= n,
                n == self.entities.len(),
                op.declared() == dv,
                self.wf(),
                self.next_id == old(self).next_id,
                resources.wf(),
                resources@.dom() == old(resources)@.dom(),
                preserves_outside(old(resources)@, resources@, dv.res_writes),
                forall|j: int|
                    0 <= j < n ==> self@[j].id == old(self)@[j].id
                        && self@[j].comps.dom() == old(self)@[j].comps.dom(),
                forall|j: int| i <= j < n ==> self@[j] == old(self)@[j],
                forall|j: int|
                    0 <= j < i && !eligible(dv, old(self)@[j].comps.dom())
                        ==> self@[j] == old(self)@[j],
                forall|j: int|
                    0 <= j < i && eligible(dv, old(self)@[j].comps.dom()) ==> preserves_outside(
                        old(self)@[j].comps,
                        self@[j].comps,
                        dv.writes,
                    ),
                outs@.len() == count_eligible(dv, old(self)@.take(i as int)),
                ({
                    let rest = pass_spec::<O>(
                        op.model(),
                        input,
                        dv,
                        old(self)@.skip(i as int),
                        resources@,
                    );
                    pr.0 == rest.0 && pr.1 == outs@ + rest.1 && pr.2 == self@.take(i as int)
                        + rest.2 && pr.3 == rest.3
                }),
            decreases n - i,
        {
            let ghost prev = *self;
            let ghost m_pre = op.model();
            let ghost res_pre = resources@;
            let ghost outs_pre = outs@;
            let mut rec = self.entities.remove(i);
            let present = rec.comps.keys();
            let is_eligible = decl.matches_key_list(&present);
            assert(is_eligible == eligible(dv, old(self)@[i as int].comps.dom()));
            if is_eligible {
                let out = op.run(rec.id, input, &mut rec.comps, resources);
                outs.push(out);
            }
            self.entities.insert(i, rec);
            proof {
                assert(self.entities@ =~= prev.entities@.update(
                    i as int,
                    self.entities@[i as int],
                ));
                assert(self@ =~= prev@.update(i as int, self.entities@[i as int]@));
                assert(old(self)@.take(i + 1).drop_last() =~= old(self)@.take(i as int));
                assert(old(self)@.take(i + 1).last() == old(self)@[i as int]);
                assert(count_eligible(dv, old(self)@.take(i + 1)) == count_eligible(
                    dv,
                    old(self)@.take(i as int),
                ) + (if eligible(dv, old(self)@[i as int].comps.dom()) {
                    1nat
                } else {
                    0nat
                }));
                assert(old(self)@.skip(i as int).len() > 0);
                assert(old(self)@.skip(i as int).first() == old(self)@[i as int]);
                assert(old(self)@.skip(i as int).drop_first() =~= old(self)@.skip(i as int + 1));
                let st = O::step(
                    m_pre,
                    old(self)@[i as int].id,
                    input,
                    old(self)@[i as int].comps,
                    res_pre,
                );
                let rest_pre = pass_spec::<O>(m_pre, input, dv, old(self)@.skip(i as int), res_pre);
                let rest_new = pass_spec::<O>(
                    op.model(),
                    input,
                    dv,
                    old(self)@.skip(i as int + 1),
                    resources@,
                );
                assert(self@.take(i as int) =~= prev@.take(i as int));
                assert(self@.take(i as int + 1) =~= self@.take(i as int) + seq![self@[i as int]]);
                if eligible(dv, old(self)@[i as int].comps.dom()) {
                    assert(op.model() == st.0 && resources@ == st.3);
                    assert(self@[i as int] == (RecView {
                        id: old(self)@[i as int].id,
                        comps: st.2,
                    }));
                    assert(rest_pre == (
                        rest_new.0,
                        seq![st.1] + rest_new.1,
                        seq![self@[i as int]] + rest_new.2,
                        rest_new.3,
                    ));
                    assert(outs@ =~= outs_pre + seq![st.1]);
                    assert((outs_pre + seq![st.1]) + rest_new.1 =~= outs_pre + (seq![st.1]
                        + rest_new.1));
                    assert((self@.take(i as int) + seq![self@[i as int]]) + rest_new.2
                        =~= self@.take(i as int) + (seq![self@[i as int]] + rest_new.2));
                } else {
                    assert(op.model() == m_pre && resources@ == res_pre);
                    assert(self@[i as int] == old(self)@[i as int]);
                    assert(rest_pre == (
                        rest_new.0,
                        rest_new.1,
                        seq![self@[i as int]] + rest_new.2,
                        rest_new.3,
                    ));
                    assert((self@.take(i as int) + seq![self@[i as int]]) + rest_new.2
                        =~= self@.take(i as int) + (seq![self@[i as int]] + rest_new.2));
                }
            }
            i += 1;
        }
        proof {
            assert(old(self)@.take(n as int) =~= old(self)@);
            assert(old(self)@.skip(n as int).len() == 0);
            let rest = pass_spec::<O>(op.model(), input, dv, old(self)@.skip(n as int), resources@);
            assert(rest == (op.model(), Seq::<O::Out>::empty(), Seq::<RecView>::empty(), resources@));
            assert(outs@ + Seq::<O::Out>::empty() =~= outs@);
            assert(self@.take(n as int) + Seq::<RecView>::empty() =~= self@.take(n as int));
            assert(self@.take(n as int) =~= self@);
        }
        outs
    }

    /// One pass, folded: runs [`run_pass`](Store::run_pass) and folds the
    /// collected outputs in visit order, seeded at the folder's initial
    /// value.  The result is exactly the fold of the pass's outputs; the
    /// store, the operation and the resources are affected exactly as by
    /// `run_pass`.
    pub fn run_pass_fold<O: EntitySystem, F: crate::OutputFold<O::Out>>(
        &mut self,
        op: &mut O,
        input: O::In,
        resources: &mut ValueTable,
        folder: &F,
    ) -> (r: F::Acc) where O::In: Copy
        requires
            old(self).wf(),
            old(resources).wf(),
            res_claims(old(op).declared()).subset_of(old(resources)@.dom()),
        ensures
            final(self).wf(),
            final(self).next_handle() == old(self).next_handle(),
            final(self)@.len() == old(self)@.len(),
            forall|j: int|
                0 <= j < old(self)@.len() ==> final(self)@[j].id == old(self)@[j].id
                    && final(self)@[j].comps.dom() == old(self)@[j].comps.dom(),
            forall|j: int|
                0 <= j < old(self)@.len() && !eligible(
                    old(op).declared(),
                    old(self)@[j].comps.dom(),
                ) ==> final(self)@[j] == old(self)@[j],
            forall|j: int|
                0 <= j < old(self)@.len() && eligible(
                    old(op).declared(),
                    old(self)@[j].comps.dom(),
                ) ==> preserves_outside(
                    old(self)@[j].comps,
                    final(self)@[j].comps,
                    old(op).declared().writes,
                ),
            ({
                let pr = pass_spec::<O>(
                    old(op).model(),
                    input,
                    old(op).declared(),
                    old(self)@,
                    old(resources)@,
                );
                r == crate::fold_outputs_from(*folder, folder.init_spec(), pr.1)
                    && final(op).model() == pr.0 && final(self)@ == pr.2
                    && final(resources)@ == pr.3
            }),
            final(op).declared() == old(op).declared(),
            final(resources).wf(),
            final(resources)@.dom() == old(resources)@.dom(),
            preserves_outside(old(resources)@, final(resources)@, old(op).declared().res_writes),
    {
        let outs = self.run_pass(op, input, resources);
        crate::fold_outputs(folder, outs)
    }

    /// One pass of an operation that only reads.  Because the operation's
    /// declared write sets are empty, the pass leaves the store and the
    /// resources exactly as they were: the outputs are the only effect.
    pub fn run_pass_read_only<O: crate::ReadOnlyEntitySystem>(
        &mut self,
        op: &mut O,
        input: O::In,
        resources: &mut ValueTable,
    ) -> (outs: Vec<O::Out>) where O::In: Copy
        requires
            old(self).wf(),
            old(resources).wf(),
            res_claims(old(op).declared()).subset_of(old(resources)@.dom()),
        ensures
            final(self).wf(),
            final(self).next_handle() == old(self).next_handle(),
            final(self)@ == old(self)@,
            outs@.len() == count_eligible(old(op).declared(), old(self)@),
            ({
                let pr = pass_spec::<O>(
                    old(op).model(),
                    input,
                    old(op).declared(),
                    old(self)@,
                    old(resources)@,
                );
                final(op).model() == pr.0 && outs@ == pr.1
            }),
            final(op).declared() == old(op).declared(),
            final(resources).wf(),
            final(resources)@ == old(resources)@,
    {
        proof {
            old(op).read_only_declaration();
        }
        let outs = self.run_pass(op, input, resources);
        proof {
            assert forall|j: int| 0 <= j < old(self)@.len() implies self@[j] == old(self)@[j] by {
                if eligible(old(op).declared(), old(self)@[j].comps.dom()) {
                    assert forall|c: u64| #[trigger] old(self)@[j].comps.dom().contains(c) implies
                        self@[j].comps.dom().contains(c) && self@[j].comps[c]
                        == old(self)@[j].comps[c] by {
                        assert(!old(op).declared().writes.contains(c));
                    }
                    assert(self@[j].comps =~= old(self)@[j].comps);
                    assert(self@[j] =~= old(self)@[j]);
                }
            }
            assert(self@ =~= old(self)@);
            assert forall|c: u64| #[trigger] old(resources)@.dom().contains(c) implies resources@.dom().contains(c)
                && resources@[c] == old(resources)@[c] by {
                assert(!old(op).declared().res_writes.contains(c));
            }
            assert(resources@ =~= old(resources)@);
        }
        outs
    }
}

} // verus!
