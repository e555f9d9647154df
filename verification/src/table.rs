//! A small keyed table of plain values.  One table holds the component
//! values of a single entity (keyed by component type), another holds the
//! auxiliary resources of a pass (keyed by resource identifier).

use vstd::prelude::*;

verus! {

/// The mathematical content of a sequence of key/value entries: the map it
/// spells out, later entries winning (irrelevant under unique keys).
pub open spec fn entries_map(s: Seq<(u64, i64)>) -> Map<u64, i64>
    decreases s.len(),
{
    if s.len() == 0 {
        Map::empty()
    } else {
        entries_map(s.drop_last()).insert(s.last().0, s.last().1)
    }
}

/// No key occurs twice.
pub open spec fn unique_keys(s: Seq<(u64, i64)>) -> bool {
    forall|i: int, j: int| 0 <= i < j < s.len() ==> s[i].0 != s[j].0
}

/// A key occurs somewhere in the entry list.
pub open spec fn has_key(s: Seq<(u64, i64)>, c: u64) -> bool {
    exists|i: int| 0 <= i < s.len() && s[i].0 == c
}

proof fn lemma_entries_map_characterised(s: Seq<(u64, i64)>)
    ensures
        forall|c: u64| #[trigger] entries_map(s).dom().contains(c) <==> has_key(s, c),
        unique_keys(s) ==> forall|i: int|
            0 <= i < s.len() ==> entries_map(s)[#[trigger] s[i].0] == s[i].1,
    decreases s.len(),
{
    if s.len() > 0 {
        lemma_entries_map_characterised(s.drop_last());
        assert forall|c: u64| #[trigger] entries_map(s).dom().contains(c) implies has_key(
            s,
            c,
        ) by {
            if c == s.last().0 {
                assert(s[s.len() - 1].0 == c);
            } else {
                assert(entries_map(s.drop_last()).dom().contains(c));
                let i = choose|i: int| 0 <= i < s.drop_last().len() && s.drop_last()[i].0 == c;
                assert(s[i].0 == c);
            }
        }
        assert forall|c: u64| has_key(s, c) implies entries_map(s).dom().contains(c) by {
            let i = choose|i: int| 0 <= i < s.len() && s[i].0 == c;
            if i < s.len() - 1 {
                assert(s.drop_last()[i].0 == c);
                assert(has_key(s.drop_last(), c));
                assert(entries_map(s.drop_last()).dom().contains(c));
            } else {
                assert(c == s.last().0);
            }
        }
        if unique_keys(s) {
            assert forall|i: int| 0 <= i < s.len() implies entries_map(s)[#[trigger] s[i].0]
                == s[i].1 by {
                if i < s.len() - 1 {
                    assert(s[i].0 != s.last().0);
                    assert(s.drop_last()[i] == s[i]);
                }
            }
        }
    }
}

/// A keyed table of signed values with unique keys.  Its mathematical
/// content is the finite map from keys to values.
#[derive(Debug)]
pub struct ValueTable {
    entries: Vec<(u64, i64)>,
}

impl View for ValueTable {
    type V = Map<u64, i64>;

    closed spec fn view(&self) -> Map<u64, i64> {
        entries_map(self.entries@)
    }
}

impl ValueTable {
    /// Key uniqueness, which every operation of the table preserves.
    pub closed spec fn wf(&self) -> bool {
        unique_keys(self.entries@)
    }

    /// The empty table.
    pub fn new() -> (r: ValueTable)
        ensures
            r.wf(),
            r@ == Map::<u64, i64>::empty(),
    {
        let r = ValueTable { entries: Vec::new() };
        assert(r@ =~= Map::<u64, i64>::empty());
        r
    }

    /// The value stored under key `c`, if any.
    #[verifier::loop_isolation(false)]
    pub fn get(&self, c: u64) -> (r: Option<i64>)
        requires
            self.wf(),
        ensures
            r is Some <==> self@.dom().contains(c),
            r matches Some(v) ==> self@[c] == v,
    {
        proof {
            lemma_entries_map_characterised(self.entries@);
        }
        let mut i: usize = 0;
        while i < self.entries.len()
            invariant
                i <= self.entries.len(),
                forall|j: int| 0 <= j < i ==> self.entries@[j].0 != c,
            decreases self.entries.len() - i,
        {
            let (key, value) = self.entries[i];
            if key == c {
                assert(self.entries@[i as int].0 == c);
                return Some(value);
            }
            i += 1;
        }
        assert(!has_key(self.entries@, c));
        None
    }

    /// The value stored under a key that is known to be present.
    pub fn get_existing(&self, c: u64) -> (r: i64)
        requires
            self.wf(),
            self@.dom().contains(c),
        ensures
            r == self@[c],
    {
        match self.get(c) {
            Some(v) => v,
            None => {
                assert(false);
                0
            },
        }
    }

    /// Whether the table holds a value under key `c`.
    pub fn contains_key(&self, c: u64) -> (r: bool)
        requires
            self.wf(),
        ensures
            r == self@.dom().contains(c),
    {
        self.get(c).is_some()
    }

    /// Stores `v` under key `c`, adding the key or replacing its value.
    #[verifier::loop_isolation(false)]
    pub fn insert(&mut self, c: u64, v: i64)
        requires
            old(self).wf(),
        ensures
            final(self).wf(),
            final(self)@ == old(self)@.insert(c, v),
    {
        proof {
            lemma_entries_map_characterised(self.entries@);
        }
        let ghost s0 = self.entries@;
        let mut i: usize = 0;
        while i < self.entries.len()
            invariant
                i <= self.entries.len(),
                self.entries@ == s0,
                forall|j: int| 0 <= j < i ==> self.entries@[j].0 != c,
            decreases self.entries.len() - i,
        {
            let (key, _) = self.entries[i];
            if key == c {
                self.entries.set(i, (c, v));
                proof {
                    lemma_update_is_insert(s0, i as int, c, v);
                }
                return ;
            }
            i += 1;
        }
        assert(!has_key(s0, c));
        self.entries.push((c, v));
        proof {
            assert(self.entries@.drop_last() =~= s0);
            assert forall|p: int, q: int|
                0 <= p < q < self.entries@.len() implies self.entries@[p].0
                != self.entries@[q].0 by {
                if q == self.entries@.len() - 1 {
                    assert(!(0 <= p < s0.len() && s0[p].0 == c));
                }
            }
        }
    }

    /// The keys of the table, in storage order.
    #[verifier::loop_isolation(false)]
    pub fn keys(&self) -> (r: Vec<u64>)
        requires
            self.wf(),
        ensures
            crate::access::set_of(r@) == self@.dom(),
    {
        proof {
            lemma_entries_map_characterised(self.entries@);
        }
        let mut r: Vec<u64> = Vec::new();
        let mut i: usize = 0;
        while i < self.entries.len()
            invariant
                i <= self.entries.len(),
                r@.len() == i,
                forall|j: int| 0 <= j < i ==> r@[j] == self.entries@[j].0,
            decreases self.entries.len() - i,
        {
            let (key, _) = self.entries[i];
            r.push(key);
            i += 1;
        }
        proof {
            assert forall|c: u64| crate::access::set_of(r@).contains(c) implies self@.dom().contains(
                c,
            ) by {
                let j = choose|j: int| 0 <= j < r@.len() && r@[j] == c;
                assert(self.entries@[j].0 == c);
            }
            assert forall|c: u64| self@.dom().contains(c) implies crate::access::set_of(
                r@,
            ).contains(c) by {
                let j = choose|j: int| 0 <= j < self.entries@.len() && self.entries@[j].0 == c;
                assert(r@[j] == c);
            }
            assert(crate::access::set_of(r@) =~= self@.dom());
        }
        r
    }

    /// How many keys the table holds.
    pub fn len(&self) -> (r: usize)
        requires
            self.wf(),
        ensures
            r == self@.dom().len(),
    {
        proof {
            lemma_entries_map_len(self.entries@);
        }
        self.entries.len()
    }
}

proof fn lemma_update_is_insert(s: Seq<(u64, i64)>, i: int, c: u64, v: i64)
    requires
        unique_keys(s),
        0 <= i < s.len(),
        s[i].0 == c,
    ensures
        unique_keys(s.update(i, (c, v))),
        entries_map(s.update(i, (c, v))) == entries_map(s).insert(c, v),
    decreases s.len(),
{
    lemma_entries_map_characterised(s);
    lemma_entries_map_characterised(s.update(i, (c, v)));
    let t = s.update(i, (c, v));
    assert forall|p: int, q: int| 0 <= p < q < t.len() implies t[p].0 != t[q].0 by {
        assert(s[p].0 != s[q].0);
    }
    assert forall|k: u64| #[trigger] entries_map(t).dom().contains(k) <==> entries_map(s).insert(
        c,
        v,
    ).dom().contains(k) by {
        if entries_map(t).dom().contains(k) {
            let j = choose|j: int| 0 <= j < t.len() && t[j].0 == k;
            assert(s[j].0 == k || k == c);
        }
        if entries_map(s).insert(c, v).dom().contains(k) {
            if k == c {
                assert(t[i].0 == k);
            } else {
                let j = choose|j: int| 0 <= j < s.len() && s[j].0 == k;
                assert(t[j].0 == k);
            }
        }
    }
    assert forall|k: u64| entries_map(t).dom().contains(k) implies entries_map(t)[k] == entries_map(
        s,
    ).insert(c, v)[k] by {
        let j = choose|j: int| 0 <= j < t.len() && t[j].0 == k;
        if k == c {
            assert(t[i] == (c, v));
            assert(j == i) by {
                if j != i {
                    assert(t[j].0 != t[i].0);
                }
            }
            assert(entries_map(t)[t[j].0] == t[j].1);
        } else {
            assert(j != i);
            assert(t[j] == s[j]);
            assert(entries_map(t)[t[j].0] == t[j].1);
            assert(entries_map(s)[s[j].0] == s[j].1);
        }
    }
    assert(entries_map(t) =~= entries_map(s).insert(c, v));
}

proof fn lemma_entries_map_len(s: Seq<(u64, i64)>)
    requires
        unique_keys(s),
    ensures
        entries_map(s).dom().len() == s.len(),
        entries_map(s).dom().finite(),
    decreases s.len(),
{
    lemma_entries_map_characterised(s);
    if s.len() == 0 {
        assert(entries_map(s).dom() =~= Set::<u64>::empty());
    } else {
        lemma_entries_map_characterised(s.drop_last());
        lemma_entries_map_len(s.drop_last());
        assert(!entries_map(s.drop_last()).dom().contains(s.last().0)) by {
            if has_key(s.drop_last(), s.last().0) {
                let j = choose|j: int|
                    0 <= j < s.drop_last().len() && s.drop_last()[j].0 == s.last().0;
                assert(s[j].0 == s[s.len() - 1].0);
            }
        }
    }
}

} // verus!
