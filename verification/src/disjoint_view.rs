//! A time-sliced multi-handle container for one entity's data.  Two
//! sub-views of the same entity whose declarations overlap — say one reads a
//! component the other writes — would be refused by
//! [`AccessDeclaration::merge`] if declared by two independent operations.
//! Fused into one container that exposes the sub-views through `&mut self`
//! accessors, the two handles can never be alive at the same time, so the
//! conflict is impossible by construction; the container's own declaration
//! is the union of the sub-views' claims.

use vstd::prelude::*;

use crate::access::{comp_claims, merged, AccessDeclaration, AccessView};
use crate::table::ValueTable;

verus! {

/// One entity's data behind two access-scoped sub-views that are mutually
/// exclusive in time.
pub struct DisjointView {
    table: ValueTable,
    first: AccessDeclaration,
    second: AccessDeclaration,
}

impl DisjointView {
    /// The table is well formed and holds every component either sub-view
    /// claims.
    pub closed spec fn wf(&self) -> bool {
        &&& self.table.wf()
        &&& comp_claims(self.first@).subset_of(self.table@.dom())
        &&& comp_claims(self.second@).subset_of(self.table@.dom())
    }

    /// The entity data currently held.
    pub closed spec fn table_view(&self) -> Map<u64, i64> {
        self.table@
    }

    /// The first sub-view's declaration.
    pub closed spec fn first_declared(&self) -> AccessView {
        self.first@
    }

    /// The second sub-view's declaration.
    pub closed spec fn second_declared(&self) -> AccessView {
        self.second@
    }

    /// Builds the view from one entity's data and the declarations of two
    /// independently validated sub-views of it.  The declarations may
    /// conflict with each other; each must be serviceable by the data.
    pub fn new(table: ValueTable, first: AccessDeclaration, second: AccessDeclaration) -> (r:
        DisjointView)
        requires
            table.wf(),
            comp_claims(first@).subset_of(table@.dom()),
            comp_claims(second@).subset_of(table@.dom()),
        ensures
            r.wf(),
            r.table_view() == table@,
            r.first_declared() == first@,
            r.second_declared() == second@,
    {
        DisjointView { table, first, second }
    }

    /// The container's own declaration: the union of the two sub-views'
    /// claims, mutable claims included, computed once.
    pub fn fused_access(&self) -> (d: AccessDeclaration)
        ensures
            d@ == merged(self.first_declared(), self.second_declared()),
    {
        self.first.fuse(&self.second)
    }

    /// Reads component `c` through the first sub-view, which must claim it.
    pub fn get_first(&self, c: u64) -> (r: i64)
        requires
            self.wf(),
            comp_claims(self.first_declared()).contains(c),
        ensures
            r == self.table_view()[c],
    {
        self.table.get_existing(c)
    }

    /// Writes component `c` through the first sub-view, which must claim it
    /// read-write.
    pub fn set_first(&mut self, c: u64, v: i64)
        requires
            old(self).wf(),
            old(self).first_declared().writes.contains(c),
        ensures
            final(self).wf(),
            final(self).table_view() == old(self).table_view().insert(c, v),
            final(self).first_declared() == old(self).first_declared(),
            final(self).second_declared() == old(self).second_declared(),
    {
        assert(comp_claims(self.first@).contains(c));
        self.table.insert(c, v);
        assert(final(self).table_view().dom() =~= old(self).table_view().dom().insert(c));
        assert(final(self).table_view().dom() =~= old(self).table_view().dom());
    }

    /// Reads component `c` through the second sub-view, which must claim it.
    pub fn get_second(&self, c: u64) -> (r: i64)
        requires
            self.wf(),
            comp_claims(self.second_declared()).contains(c),
        ensures
            r == self.table_view()[c],
    {
        self.table.get_existing(c)
    }

    /// Writes component `c` through the second sub-view, which must claim
    /// it read-write.
    pub fn set_second(&mut self, c: u64, v: i64)
        requires
            old(self).wf(),
            old(self).second_declared().writes.contains(c),
        ensures
            final(self).wf(),
            final(self).table_view() == old(self).table_view().insert(c, v),
            final(self).first_declared() == old(self).first_declared(),
            final(self).second_declared() == old(self).second_declared(),
    {
        assert(comp_claims(self.second@).contains(c));
        self.table.insert(c, v);
        assert(final(self).table_view().dom() =~= old(self).table_view().dom().insert(c));
        assert(final(self).table_view().dom() =~= old(self).table_view().dom());
    }

    /// Dissolves the view at the end of the invocation, handing the entity
    /// data back.
    pub fn into_table(self) -> (r: ValueTable)
        requires
            self.wf(),
        ensures
            r.wf(),
            r@ == self.table_view(),
    {
        self.table
    }
}

} // verus!
