//! Access declarations: what an entity operation reads, writes, requires
//! present and requires absent, both for component types and for auxiliary
//! resources, together with merging, conflict detection and existence
//! projection.

use vstd::prelude::*;

verus! {

/// Mathematical content of an [`AccessDeclaration`]: six sets of identifiers.
///
/// `reads` and `writes` are component-type claims, `withs` and `withouts` are
/// pure existence terms (presence respectively absence of a component type on
/// an entity), and `res_reads` / `res_writes` are claims on auxiliary
/// resources, which have no per-entity existence side.
#[verifier::ext_equal]
pub ghost struct AccessView {
    pub reads: Set<u64>,
    pub writes: Set<u64>,
    pub withs: Set<u64>,
    pub withouts: Set<u64>,
    pub res_reads: Set<u64>,
    pub res_writes: Set<u64>,
}

/// The declaration that claims nothing and filters nothing.
pub open spec fn empty_access() -> AccessView {
    AccessView {
        reads: Set::empty(),
        writes: Set::empty(),
        withs: Set::empty(),
        withouts: Set::empty(),
        res_reads: Set::empty(),
        res_writes: Set::empty(),
    }
}

/// One direction of a conflict: some identifier written by `a` is claimed, in
/// any mode, by `b`.
pub open spec fn writes_collide(writer: Set<u64>, reads: Set<u64>, writes: Set<u64>) -> bool {
    exists|c: u64| writer.contains(c) && (reads.contains(c) || writes.contains(c))
}

/// Two declarations conflict exactly when some component type (or resource)
/// is claimed read-write by one of them and claimed in any mode by the other.
pub open spec fn conflicts(a: AccessView, b: AccessView) -> bool {
    ||| writes_collide(a.writes, b.reads, b.writes)
    ||| writes_collide(b.writes, a.reads, a.writes)
    ||| writes_collide(a.res_writes, b.res_reads, b.res_writes)
    ||| writes_collide(b.res_writes, a.res_reads, a.res_writes)
}

/// The conjunction of two declarations: the set union, field by field.
/// Existence terms always merge; access claims merge as a union as well, so
/// the merged declaration claims exactly what the two inputs claim together.
pub open spec fn merged(a: AccessView, b: AccessView) -> AccessView {
    AccessView {
        reads: a.reads.union(b.reads),
        writes: a.writes.union(b.writes),
        withs: a.withs.union(b.withs),
        withouts: a.withouts.union(b.withouts),
        res_reads: a.res_reads.union(b.res_reads),
        res_writes: a.res_writes.union(b.res_writes),
    }
}

/// Existence projection: keep only the present/absent facts and drop every
/// read, write and resource claim.
pub open spec fn projected(a: AccessView) -> AccessView {
    AccessView {
        reads: Set::empty(),
        writes: Set::empty(),
        withs: a.withs,
        withouts: a.withouts,
        res_reads: Set::empty(),
        res_writes: Set::empty(),
    }
}

/// The component types a declaration claims in any mode.
pub open spec fn comp_claims(a: AccessView) -> Set<u64> {
    a.reads.union(a.writes)
}

/// The access claims of a declaration with its existence terms dropped:
/// what an operation that resolves its own data per entity, and therefore
/// filters nothing, still has to declare to the scheduler.
pub open spec fn claims_only(a: AccessView) -> AccessView {
    AccessView { withs: Set::empty(), withouts: Set::empty(), ..a }
}

/// Whether an entity whose set of present component types is `comps`
/// satisfies the filter side of declaration `a`.  Only the existence terms
/// matter; read and write claims grant access but never filter.
pub open spec fn eligible(a: AccessView, comps: Set<u64>) -> bool {
    &&& forall|c: u64| a.withs.contains(c) ==> comps.contains(c)
    &&& forall|c: u64| a.withouts.contains(c) ==> !comps.contains(c)
}

/// `big` declares at least everything `small` declares.
pub open spec fn covers(big: AccessView, small: AccessView) -> bool {
    &&& small.reads.subset_of(big.reads)
    &&& small.writes.subset_of(big.writes)
    &&& small.withs.subset_of(big.withs)
    &&& small.withouts.subset_of(big.withouts)
    &&& small.res_reads.subset_of(big.res_reads)
    &&& small.res_writes.subset_of(big.res_writes)
}

/// The set of identifiers occurring in a list.
pub open spec fn set_of(s: Seq<u64>) -> Set<u64> {
    Set::new(|c: u64| s.contains(c))
}

/// Why a merge was refused: an identifier written by one declaration and
/// claimed by the other, either a component type or a resource.
#[derive(Clone, Copy, Debug, PartialEq, Eq, Structural)]
pub enum MergeConflict {
    Component { id: u64 },
    Resource { id: u64 },
}

/// The witness carried by a [`MergeConflict`] really is in conflict between
/// `a` and `b`.
pub open spec fn conflict_witness(a: AccessView, b: AccessView, e: MergeConflict) -> bool {
    match e {
        MergeConflict::Component { id } => {
            ||| a.writes.contains(id) && (b.reads.contains(id) || b.writes.contains(id))
            ||| b.writes.contains(id) && (a.reads.contains(id) || a.writes.contains(id))
        },
        MergeConflict::Resource { id } => {
            ||| a.res_writes.contains(id) && (b.res_reads.contains(id) || b.res_writes.contains(id))
            ||| b.res_writes.contains(id) && (a.res_reads.contains(id) || a.res_writes.contains(id))
        },
    }
}

/// An executable access declaration; its mathematical content is an
/// [`AccessView`].  Duplicate entries in the underlying lists are harmless:
/// only the sets they denote matter.
#[derive(Debug)]
pub struct AccessDeclaration {
    reads: Vec<u64>,
    writes: Vec<u64>,
    withs: Vec<u64>,
    withouts: Vec<u64>,
    res_reads: Vec<u64>,
    res_writes: Vec<u64>,
}

impl View for AccessDeclaration {
    type V = AccessView;

    closed spec fn view(&self) -> AccessView {
        AccessView {
            reads: set_of(self.reads@),
            writes: set_of(self.writes@),
            withs: set_of(self.withs@),
            withouts: set_of(self.withouts@),
            res_reads: set_of(self.res_reads@),
            res_writes: set_of(self.res_writes@),
        }
    }
}

proof fn lemma_set_of_push(s: Seq<u64>, c: u64)
    ensures
        set_of(s.push(c)) == set_of(s).insert(c),
{
    assert forall|x: u64| set_of(s.push(c)).contains(x) implies set_of(s).insert(c).contains(
        x,
    ) by {
        let i = choose|i: int| 0 <= i < s.push(c).len() && s.push(c)[i] == x;
        if i < s.len() {
            assert(s[i] == x);
        }
    }
    assert forall|x: u64| set_of(s).insert(c).contains(x) implies set_of(s.push(c)).contains(
        x,
    ) by {
        if x == c {
            assert(s.push(c)[s.len() as int] == x);
        } else {
            let i = choose|i: int| 0 <= i < s.len() && s[i] == x;
            assert(s.push(c)[i] == x);
        }
    }
    assert(set_of(s.push(c)) =~= set_of(s).insert(c));
}

proof fn lemma_set_of_concat(a: Seq<u64>, b: Seq<u64>)
    ensures
        set_of(a + b) == set_of(a).union(set_of(b)),
{
    assert forall|x: u64| set_of(a + b).contains(x) implies set_of(a).union(set_of(b)).contains(
        x,
    ) by {
        let i = choose|i: int| 0 <= i < (a + b).len() && (a + b)[i] == x;
        if i < a.len() {
            assert(a[i] == x);
        } else {
            assert(b[i - a.len()] == x);
        }
    }
    assert forall|x: u64| set_of(a).union(set_of(b)).contains(x) implies set_of(a + b).contains(
        x,
    ) by {
        if set_of(a).contains(x) {
            let i = choose|i: int| 0 <= i < a.len() && a[i] == x;
            assert((a + b)[i] == x);
        } else {
            let i = choose|i: int| 0 <= i < b.len() && b[i] == x;
            assert((a + b)[a.len() + i] == x);
        }
    }
    assert(set_of(a + b) =~= set_of(a).union(set_of(b)));
}

/// Appends every identifier of `src` to `dst`.
fn push_all(dst: &mut Vec<u64>, src: &Vec<u64>)
    ensures
        final(dst)@ == old(dst)@ + src@,
{
    let mut j: usize = 0;
    while j < src.len()
        invariant
            j <= src.len(),
            dst@ == old(dst)@ + src@.subrange(0, j as int),
        decreases src.len() - j,
    {
        dst.push(src[j]);
        assert(old(dst)@ + src@.subrange(0, j as int + 1) == (old(dst)@ + src@.subrange(
            0,
            j as int,
        )).push(src@[j as int]));
        j += 1;
    }
    assert(src@.subrange(0, src.len() as int) == src@);
}

/// A fresh list holding the identifiers of `a` followed by those of `b`.
fn concat_ids(a: &Vec<u64>, b: &Vec<u64>) -> (r: Vec<u64>)
    ensures
        set_of(r@) == set_of(a@).union(set_of(b@)),
{
    let mut r: Vec<u64> = Vec::new();
    push_all(&mut r, a);
    push_all(&mut r, b);
    proof {
        assert(r@ == a@ + b@);
        lemma_set_of_concat(a@, b@);
    }
    r
}

/// A fresh copy of the list.
fn copy_ids(v: &Vec<u64>) -> (r: Vec<u64>)
    ensures
        r@ == v@,
{
    let mut r: Vec<u64> = Vec::new();
    push_all(&mut r, v);
    assert(Seq::<u64>::empty() + v@ =~= v@);
    r
}

/// Whether `c` occurs in the list.
fn contains_id(v: &Vec<u64>, c: u64) -> (r: bool)
    ensures
        r == set_of(v@).contains(c),
{
    let mut i: usize = 0;
    while i < v.len()
        invariant
            i <= v.len(),
            forall|j: int| 0 <= j < i ==> v@[j] != c,
        decreases v.len() - i,
    {
        if v[i] == c {
            return true;
        }
        i += 1;
    }
    false
}

/// First identifier of `writer` that occurs in `reads` or in `writes`.
fn find_rw_overlap(writer: &Vec<u64>, reads: &Vec<u64>, writes: &Vec<u64>) -> (r: Option<u64>)
    ensures
        r is Some <==> writes_collide(set_of(writer@), set_of(reads@), set_of(writes@)),
        r matches Some(c) ==> set_of(writer@).contains(c) && (set_of(reads@).contains(c)
            || set_of(writes@).contains(c)),
{
    let mut i: usize = 0;
    while i < writer.len()
        invariant
            i <= writer.len(),
            forall|j: int| 0 <= j < i ==> !(set_of(reads@).contains(writer@[j]) || set_of(
                writes@,
            ).contains(writer@[j])),
        decreases writer.len() - i,
    {
        let c = writer[i];
        if contains_id(reads, c) || contains_id(writes, c) {
            assert(set_of(writer@).contains(writer@[i as int]));
            return Some(c);
        }
        i += 1;
    }
    proof {
        assert forall|c: u64| !(set_of(writer@).contains(c) && (set_of(reads@).contains(c)
            || set_of(writes@).contains(c))) by {
            if set_of(writer@).contains(c) {
                let j = choose|j: int| 0 <= j < writer@.len() && writer@[j] == c;
                assert(!(set_of(reads@).contains(writer@[j]) || set_of(writes@).contains(
                    writer@[j],
                )));
            }
        }
    }
    None
}

impl AccessDeclaration {
    /// The declaration that claims nothing and filters nothing.
    pub fn new() -> (r: AccessDeclaration)
        ensures
            r@ == empty_access(),
    {
        let r = AccessDeclaration {
            reads: Vec::new(),
            writes: Vec::new(),
            withs: Vec::new(),
            withouts: Vec::new(),
            res_reads: Vec::new(),
            res_writes: Vec::new(),
        };
        assert(r@ =~= empty_access());
        r
    }

    /// Claims read-only access to component type `c`; the claim brings the
    /// matching presence term with it, as a data claim can only be serviced
    /// on entities that hold the component.
    pub fn add_read(&mut self, c: u64)
        ensures
            final(self)@ == (AccessView {
                reads: old(self)@.reads.insert(c),
                withs: old(self)@.withs.insert(c),
                ..old(self)@
            }),
    {
        proof {
            lemma_set_of_push(self.reads@, c);
            lemma_set_of_push(self.withs@, c);
        }
        self.reads.push(c);
        self.withs.push(c);
    }

    /// Claims read-write access to component type `c`, with its presence term.
    pub fn add_write(&mut self, c: u64)
        ensures
            final(self)@ == (AccessView {
                writes: old(self)@.writes.insert(c),
                withs: old(self)@.withs.insert(c),
                ..old(self)@
            }),
    {
        proof {
            lemma_set_of_push(self.writes@, c);
            lemma_set_of_push(self.withs@, c);
        }
        self.writes.push(c);
        self.withs.push(c);
    }

    /// Requires component type `c` to be present, without claiming access.
    pub fn add_with(&mut self, c: u64)
        ensures
            final(self)@ == (AccessView { withs: old(self)@.withs.insert(c), ..old(self)@ }),
    {
        proof {
            lemma_set_of_push(self.withs@, c);
        }
        self.withs.push(c);
    }

    /// Requires component type `c` to be absent.
    pub fn add_without(&mut self, c: u64)
        ensures
            final(self)@ == (AccessView { withouts: old(self)@.withouts.insert(c), ..old(self)@ }),
    {
        proof {
            lemma_set_of_push(self.withouts@, c);
        }
        self.withouts.push(c);
    }

    /// Claims read-only access to auxiliary resource `r`.
    pub fn add_resource_read(&mut self, r: u64)
        ensures
            final(self)@ == (AccessView {
                res_reads: old(self)@.res_reads.insert(r),
                ..old(self)@
            }),
    {
        proof {
            lemma_set_of_push(self.res_reads@, r);
        }
        self.res_reads.push(r);
    }

    /// Claims read-write access to auxiliary resource `r`.
    pub fn add_resource_write(&mut self, r: u64)
        ensures
            final(self)@ == (AccessView {
                res_writes: old(self)@.res_writes.insert(r),
                ..old(self)@
            }),
    {
        proof {
            lemma_set_of_push(self.res_writes@, r);
        }
        self.res_writes.push(r);
    }

    /// The conjunction of two declarations without a conflict check: the
    /// claim sets and existence terms of both, together.  This is how a
    /// composition node that time-slices its children's access (one child
    /// runs to completion before the next) computes its own declaration.
    pub fn fuse(&self, other: &AccessDeclaration) -> (r: AccessDeclaration)
        ensures
            r@ == merged(self@, other@),
    {
        let r = AccessDeclaration {
            reads: concat_ids(&self.reads, &other.reads),
            writes: concat_ids(&self.writes, &other.writes),
            withs: concat_ids(&self.withs, &other.withs),
            withouts: concat_ids(&self.withouts, &other.withouts),
            res_reads: concat_ids(&self.res_reads, &other.res_reads),
            res_writes: concat_ids(&self.res_writes, &other.res_writes),
        };
        assert(r@ =~= merged(self@, other@));
        r
    }

    /// The existence projection of this declaration: the presence and
    /// absence terms survive, every access claim is dropped.  The result can
    /// be folded into another operation's filter set without granting that
    /// operation any access.
    pub fn project(&self) -> (r: AccessDeclaration)
        ensures
            r@ == projected(self@),
    {
        let r = AccessDeclaration {
            reads: Vec::new(),
            writes: Vec::new(),
            withs: copy_ids(&self.withs),
            withouts: copy_ids(&self.withouts),
            res_reads: Vec::new(),
            res_writes: Vec::new(),
        };
        assert(r@ =~= projected(self@));
        r
    }

    /// Searches the four write-versus-claim overlaps for a conflict witness.
    pub fn find_conflict(&self, other: &AccessDeclaration) -> (r: Option<MergeConflict>)
        ensures
            r is Some <==> conflicts(self@, other@),
            r matches Some(e) ==> conflict_witness(self@, other@, e),
    {
        if let Some(id) = find_rw_overlap(&self.writes, &other.reads, &other.writes) {
            return Some(MergeConflict::Component { id });
        }
        if let Some(id) = find_rw_overlap(&other.writes, &self.reads, &self.writes) {
            return Some(MergeConflict::Component { id });
        }
        if let Some(id) = find_rw_overlap(&self.res_writes, &other.res_reads, &other.res_writes) {
            return Some(MergeConflict::Resource { id });
        }
        if let Some(id) = find_rw_overlap(&other.res_writes, &self.res_reads, &self.res_writes) {
            return Some(MergeConflict::Resource { id });
        }
        None
    }

    /// The conflict-checked conjunction of two declarations.  It fails, and
    /// names a witness, exactly when some identifier is claimed read-write
    /// by one declaration and claimed in any mode by the other; otherwise the
    /// merged declaration claims exactly the union of the two claim sets.
    /// Existence terms always merge, even when the conjunction is
    /// unsatisfiable (a type required both present and absent simply matches
    /// no entity).
    pub fn merge(&self, other: &AccessDeclaration) -> (r: Result<AccessDeclaration, MergeConflict>)
        ensures
            r is Ok <==> !conflicts(self@, other@),
            r matches Ok(d) ==> d@ == merged(self@, other@),
            r matches Err(e) ==> conflict_witness(self@, other@, e),
    {
        match self.find_conflict(other) {
            Some(e) => Err(e),
            None => Ok(self.fuse(other)),
        }
    }

    /// Whether an entity presenting exactly the component types in `present`
    /// satisfies this declaration's existence terms.
    pub fn matches_key_list(&self, present: &Vec<u64>) -> (r: bool)
        ensures
            r == eligible(self@, set_of(present@)),
    {
        let mut i: usize = 0;
        while i < self.withs.len()
            invariant
                i <= self.withs.len(),
                forall|j: int| 0 <= j < i ==> set_of(present@).contains(self.withs@[j]),
            decreases self.withs.len() - i,
        {
            if !contains_id(present, self.withs[i]) {
                assert(self@.withs.contains(self.withs@[i as int]));
                return false;
            }
            i += 1;
        }
        let mut i: usize = 0;
        while i < self.withouts.len()
            invariant
                i <= self.withouts.len(),
                forall|j: int| 0 <= j < i ==> !set_of(present@).contains(self.withouts@[j]),
            decreases self.withouts.len() - i,
        {
            if contains_id(present, self.withouts[i]) {
                assert(self@.withouts.contains(self.withouts@[i as int]));
                return false;
            }
            i += 1;
        }
        proof {
            assert forall|c: u64| self@.withs.contains(c) implies set_of(present@).contains(
                c,
            ) by {
                let j = choose|j: int| 0 <= j < self.withs@.len() && self.withs@[j] == c;
                assert(set_of(present@).contains(self.withs@[j]));
            }
            assert forall|c: u64| self@.withouts.contains(c) implies !set_of(present@).contains(
                c,
            ) by {
                let j = choose|j: int| 0 <= j < self.withouts@.len() && self.withouts@[j] == c;
                assert(!set_of(present@).contains(self.withouts@[j]));
            }
        }
        true
    }

    /// Whether the declaration claims component `c` read-only.
    pub fn claims_read(&self, c: u64) -> (r: bool)
        ensures
            r == self@.reads.contains(c),
    {
        contains_id(&self.reads, c)
    }

    /// Whether the declaration claims component `c` read-write.
    pub fn claims_write(&self, c: u64) -> (r: bool)
        ensures
            r == self@.writes.contains(c),
    {
        contains_id(&self.writes, c)
    }

    /// Whether the declaration requires component `c` to be present.
    pub fn requires_present(&self, c: u64) -> (r: bool)
        ensures
            r == self@.withs.contains(c),
    {
        contains_id(&self.withs, c)
    }

    /// Whether the declaration requires component `c` to be absent.
    pub fn requires_absent(&self, c: u64) -> (r: bool)
        ensures
            r == self@.withouts.contains(c),
    {
        contains_id(&self.withouts, c)
    }

    /// Whether the declaration claims resource `r` read-only.
    pub fn claims_resource_read(&self, res: u64) -> (r: bool)
        ensures
            r == self@.res_reads.contains(res),
    {
        contains_id(&self.res_reads, res)
    }

    /// Whether the declaration claims resource `r` read-write.
    pub fn claims_resource_write(&self, res: u64) -> (r: bool)
        ensures
            r == self@.res_writes.contains(res),
    {
        contains_id(&self.res_writes, res)
    }

    /// This declaration's claims with the existence terms dropped.
    pub fn strip_filters(&self) -> (r: AccessDeclaration)
        ensures
            r@ == claims_only(self@),
    {
        let r = AccessDeclaration {
            reads: copy_ids(&self.reads),
            writes: copy_ids(&self.writes),
            withs: Vec::new(),
            withouts: Vec::new(),
            res_reads: copy_ids(&self.res_reads),
            res_writes: copy_ids(&self.res_writes),
        };
        assert(r@ =~= claims_only(self@));
        r
    }

    /// An identical copy of this declaration.
    pub fn duplicate(&self) -> (r: AccessDeclaration)
        ensures
            r@ == self@,
    {
        let r = AccessDeclaration {
            reads: copy_ids(&self.reads),
            writes: copy_ids(&self.writes),
            withs: copy_ids(&self.withs),
            withouts: copy_ids(&self.withouts),
            res_reads: copy_ids(&self.res_reads),
            res_writes: copy_ids(&self.res_writes),
        };
        assert(r@ =~= self@);
        r
    }
}

/// A conflict between two declarations does not depend on their order: for
/// all pairs, `a` conflicts with `b` exactly when `b` conflicts with `a`.
pub proof fn lemma_conflict_symmetric(a: AccessView, b: AccessView)
    ensures
        conflicts(a, b) == conflicts(b, a),
{
}

/// Merging declarations is commutative: both orders yield the same merged
/// claim sets, and the same conflict verdict.
pub proof fn lemma_merge_commutative(a: AccessView, b: AccessView)
    ensures
        merged(a, b) == merged(b, a),
        conflicts(a, b) == conflicts(b, a),
{
    assert(merged(a, b) =~= merged(b, a));
}

/// Splitting a one-way collision over a union of writer sets.
proof fn lemma_collide_union(w1: Set<u64>, w2: Set<u64>, r: Set<u64>, w: Set<u64>)
    ensures
        writes_collide(w1.union(w2), r, w) == (writes_collide(w1, r, w) || writes_collide(
            w2,
            r,
            w,
        )),
{
    if writes_collide(w1.union(w2), r, w) {
        let c = choose|c: u64| w1.union(w2).contains(c) && (r.contains(c) || w.contains(c));
        if w1.contains(c) {
            assert(writes_collide(w1, r, w));
        } else {
            assert(w2.contains(c) && (r.contains(c) || w.contains(c)));
        }
    }
    if writes_collide(w1, r, w) {
        let c = choose|c: u64| w1.contains(c) && (r.contains(c) || w.contains(c));
        assert(w1.union(w2).contains(c) && (r.contains(c) || w.contains(c)));
    }
    if writes_collide(w2, r, w) {
        let c = choose|c: u64| w2.contains(c) && (r.contains(c) || w.contains(c));
        assert(w1.union(w2).contains(c) && (r.contains(c) || w.contains(c)));
    }
}

/// Splitting a one-way collision over unions of the claimed sets.
proof fn lemma_collide_union_claims(wr: Set<u64>, r1: Set<u64>, r2: Set<u64>, w1: Set<u64>, w2: Set<
    u64,
>)
    ensures
        writes_collide(wr, r1.union(r2), w1.union(w2)) == (writes_collide(wr, r1, w1)
            || writes_collide(wr, r2, w2)),
{
    if writes_collide(wr, r1.union(r2), w1.union(w2)) {
        let c = choose|c: u64|
            wr.contains(c) && (r1.union(r2).contains(c) || w1.union(w2).contains(c));
        if r1.contains(c) || w1.contains(c) {
            assert(wr.contains(c) && (r1.contains(c) || w1.contains(c)));
        } else {
            assert(wr.contains(c) && (r2.contains(c) || w2.contains(c)));
        }
    }
    if writes_collide(wr, r1, w1) {
        let c = choose|c: u64| wr.contains(c) && (r1.contains(c) || w1.contains(c));
        assert(wr.contains(c) && (r1.union(r2).contains(c) || w1.union(w2).contains(c)));
    }
    if writes_collide(wr, r2, w2) {
        let c = choose|c: u64| wr.contains(c) && (r2.contains(c) || w2.contains(c));
        assert(wr.contains(c) && (r1.union(r2).contains(c) || w1.union(w2).contains(c)));
    }
}

/// A merged declaration conflicts with a third exactly when one of its two
/// inputs does.
pub proof fn lemma_conflicts_with_merged(a: AccessView, b: AccessView, c: AccessView)
    ensures
        conflicts(merged(a, b), c) == (conflicts(a, c) || conflicts(b, c)),
{
    lemma_collide_union(a.writes, b.writes, c.reads, c.writes);
    lemma_collide_union_claims(c.writes, a.reads, b.reads, a.writes, b.writes);
    lemma_collide_union(a.res_writes, b.res_writes, c.res_reads, c.res_writes);
    lemma_collide_union_claims(c.res_writes, a.res_reads, b.res_reads, a.res_writes, b.res_writes);
}

/// Merging declarations is associative: for declarations `a`, `b`, `c` the
/// two merge orders build the same claim sets, and one order runs into a
/// conflict exactly when the other does.
pub proof fn lemma_merge_associative(a: AccessView, b: AccessView, c: AccessView)
    ensures
        merged(merged(a, b), c) == merged(a, merged(b, c)),
        (conflicts(a, b) || conflicts(merged(a, b), c)) == (conflicts(b, c) || conflicts(
            a,
            merged(b, c),
        )),
{
    assert(merged(merged(a, b), c) =~= merged(a, merged(b, c)));
    lemma_conflicts_with_merged(a, b, c);
    lemma_conflicts_with_merged(b, c, a);
    lemma_conflict_symmetric(a, merged(b, c));
    lemma_conflict_symmetric(b, a);
    lemma_conflict_symmetric(c, a);
    lemma_conflict_symmetric(c, b);
}

/// Existence projection is idempotent: projecting a declaration twice yields
/// exactly the projection of the declaration.
pub proof fn lemma_project_idempotent(a: AccessView)
    ensures
        projected(projected(a)) == projected(a),
{
    assert(projected(projected(a)) =~= projected(a));
}

/// Projection neither widens nor narrows eligibility: an entity satisfies
/// the projected declaration exactly when it satisfies the unprojected one.
pub proof fn lemma_project_keeps_eligibility(a: AccessView, comps: Set<u64>)
    ensures
        eligible(projected(a), comps) == eligible(a, comps),
{
}

/// An entity is eligible for a merged declaration exactly when it is
/// eligible for both inputs.
pub proof fn lemma_eligibility_intersection(a: AccessView, b: AccessView, comps: Set<u64>)
    ensures
        eligible(merged(a, b), comps) == (eligible(a, comps) && eligible(b, comps)),
{
    if eligible(a, comps) && eligible(b, comps) {
        assert forall|c: u64| merged(a, b).withs.contains(c) implies comps.contains(c) by {
            assert(a.withs.contains(c) || b.withs.contains(c));
        }
        assert forall|c: u64| merged(a, b).withouts.contains(c) implies !comps.contains(c) by {
            assert(a.withouts.contains(c) || b.withouts.contains(c));
        }
    }
    if eligible(merged(a, b), comps) {
        assert forall|c: u64| a.withs.contains(c) implies comps.contains(c) by {
            assert(merged(a, b).withs.contains(c));
        }
        assert forall|c: u64| a.withouts.contains(c) implies !comps.contains(c) by {
            assert(merged(a, b).withouts.contains(c));
        }
        assert forall|c: u64| b.withs.contains(c) implies comps.contains(c) by {
            assert(merged(a, b).withs.contains(c));
        }
        assert forall|c: u64| b.withouts.contains(c) implies !comps.contains(c) by {
            assert(merged(a, b).withouts.contains(c));
        }
    }
}

/// A merged declaration never under-declares: it covers every claim and
/// every existence term of both of its inputs.
pub proof fn lemma_merged_covers(a: AccessView, b: AccessView)
    ensures
        covers(merged(a, b), a),
        covers(merged(a, b), b),
{
}

} // verus!
