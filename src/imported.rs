use vstd::prelude::*;

use crate::connection::{ConnectionView, TrustedConnection};

verus! {

/// Pull connections imported without a site, each UUID at most once.
///
/// A `Vec` rather than a std `HashSet` or `HashMap` keyed by UUID: the order in
/// which a hashed collection is walked is seeded per process, so no contract
/// could name the order in which the connections are handed out, and both
/// `pull_connections` and `to_parts` state that order. Here it is `order()`.
#[derive(Debug, Clone)]
pub struct ImportedConnections {
    entries: Vec<TrustedConnection>,
}

/// `conns` lists each connection of `m` once, in the set's order.
pub open spec fn lists_connections_of(m: ImportedConnections, conns: Seq<TrustedConnection>) -> bool {
    &&& conns.len() == m.order().len()
    &&& forall|i: int| 0 <= i < conns.len() ==> #[trigger] conns[i].uuid == m.order()[i]
    &&& forall|i: int| 0 <= i < conns.len() ==> #[trigger] conns[i]@ == m.view()[m.order()[i]]
}

/// Rebuilding from the connections that the set hands out gives the same set.
pub proof fn lemma_imported_round_trip(m: ImportedConnections, conns: Seq<TrustedConnection>)
    requires
        m.wf(),
        lists_connections_of(m, conns),
    ensures
        imported_map(conns) == m.view(),
{
    m.lemma_order();
    lemma_imported_prefix(m, conns, conns.len() as int);
    assert(conns.subrange(0, conns.len() as int) =~= conns);
    assert(m.order().subrange(0, conns.len() as int) =~= m.order());
    assert(m.view().restrict(m.order().to_set()) =~= m.view());
}

proof fn lemma_imported_prefix(m: ImportedConnections, conns: Seq<TrustedConnection>, n: int)
    requires
        m.wf(),
        0 <= n <= conns.len(),
        lists_connections_of(m, conns),
    ensures
        imported_map(conns.subrange(0, n)) == m.view().restrict(m.order().subrange(0, n).to_set()),
    decreases n,
{
    m.lemma_order();
    if n == 0 {
        assert(m.view().restrict(m.order().subrange(0, 0).to_set()) =~= Map::empty());
    } else {
        lemma_imported_prefix(m, conns, n - 1);
        assert(conns.subrange(0, n).drop_last() =~= conns.subrange(0, n - 1));
        let k = m.order()[n - 1];
        let pre = m.order().subrange(0, n - 1);
        assert(m.order().subrange(0, n) =~= pre + seq![k]);
        Seq::lemma_to_set_insert_commutes(pre, k);
        assert(m.order().to_set().contains(k));
        assert(!pre.contains(k)) by {
            if pre.contains(k) {
                let j = pre.index_of(k);
                assert(m.order()[j] == m.order()[n - 1]);
            }
        }
        assert(!pre.to_set().contains(k));
        assert(m.view().restrict(m.order().subrange(0, n).to_set()) =~= m.view().restrict(
            pre.to_set(),
        ).insert(k, m.view()[k]));
    }
}

/// The set that a list of connections gives, taken in order: where a UUID
/// comes twice, the earlier connection stays.
pub open spec fn imported_map(conns: Seq<TrustedConnection>) -> Map<u128, ConnectionView>
    decreases conns.len(),
{
    if conns.len() == 0 {
        Map::empty()
    } else {
        let m = imported_map(conns.drop_last());
        if m.contains_key(conns.last().uuid) {
            m
        } else {
            m.insert(conns.last().uuid, conns.last()@)
        }
    }
}

impl ImportedConnections {
    /// The UUIDs in the order in which the set hands them out.
    pub closed spec fn order(&self) -> Seq<u128> {
        self.entries@.map_values(|c: TrustedConnection| c.uuid)
    }

    pub closed spec fn wf(&self) -> bool {
        self.order().no_duplicates()
    }

    closed spec fn slot(&self, k: u128) -> int {
        choose|i: int| 0 <= i < self.entries@.len() && self.entries@[i].uuid == k
    }

    /// Each imported connection under its UUID.
    pub closed spec fn view(&self) -> Map<u128, ConnectionView> {
        Map::new(|k: u128| self.order().contains(k), |k: u128| self.entries@[self.slot(k)]@)
    }

    /// The order lists each UUID of the set once.
    pub proof fn lemma_order(&self)
        requires
            self.wf(),
        ensures
            self.order().no_duplicates(),
            self.order().to_set() == self.view().dom(),
            self.order().len() == self.view().len(),
    {
        assert(self.order().to_set() =~= self.view().dom());
        self.order().unique_seq_to_set();
    }

    proof fn lemma_slot(&self, i: int)
        requires
            self.wf(),
            0 <= i < self.entries@.len(),
        ensures
            self.slot(self.entries@[i].uuid) == i,
            self.view().contains_key(self.entries@[i].uuid),
            self.view()[self.entries@[i].uuid] == self.entries@[i]@,
    {
        let k = self.entries@[i].uuid;
        assert(self.order()[i] == k);
        let j = self.slot(k);
        assert(self.order()[j] == k);
    }

    pub fn new() -> (r: ImportedConnections)
        ensures
            r.wf(),
            r.view() == Map::<u128, ConnectionView>::empty(),
    {
        let r = ImportedConnections { entries: Vec::new() };
        assert(r.view() =~= Map::<u128, ConnectionView>::empty());
        r
    }

    fn find(&self, uuid: u128) -> (r: Option<usize>)
        requires
            self.wf(),
        ensures
            r is None <==> !self.view().contains_key(uuid),
            r matches Some(i) ==> i < self.entries@.len() && self.entries@[i as int].uuid == uuid,
    {
        let mut i: usize = 0;
        while i < self.entries.len()
            invariant
                self.wf(),
                i <= self.entries@.len(),
                forall|j: int| 0 <= j < i ==> self.entries@[j].uuid != uuid,
            decreases self.entries@.len() - i,
        {
            if self.entries[i].uuid == uuid {
                proof {
                    self.lemma_slot(i as int);
                }
                return Some(i);
            }
            i = i + 1;
        }
        proof {
            if self.view().contains_key(uuid) {
                let j = self.order().index_of(uuid);
                assert(self.order()[j] == uuid);
            }
        }
        None
    }

    pub fn len(&self) -> (r: usize)
        requires
            self.wf(),
        ensures
            r == self.view().len(),
    {
        proof {
            self.lemma_order();
        }
        self.entries.len()
    }

    pub fn is_empty(&self) -> (r: bool)
        requires
            self.wf(),
        ensures
            r == (self.view() == Map::<u128, ConnectionView>::empty()),
    {
        proof {
            if self.entries@.len() == 0 {
                assert(self.view() =~= Map::<u128, ConnectionView>::empty());
            } else {
                self.lemma_slot(0);
                assert(!Map::<u128, ConnectionView>::empty().contains_key(self.entries@[0].uuid));
            }
        }
        self.entries.len() == 0
    }

    pub fn contains(&self, uuid: u128) -> (r: bool)
        requires
            self.wf(),
        ensures
            r == self.view().contains_key(uuid),
    {
        self.find(uuid).is_some()
    }

    /// Adds a connection unless one with its UUID is there already: then
    /// nothing changes, and the material held stays the earlier one.
    pub fn insert(&mut self, connection: TrustedConnection) -> (r: bool)
        requires
            old(self).wf(),
        ensures
            final(self).wf(),
            r == !old(self).view().contains_key(connection.uuid),
            final(self).view() == if r {
                old(self).view().insert(connection.uuid, connection@)
            } else {
                old(self).view()
            },
    {
        let ghost k = connection.uuid;
        let ghost v = connection@;
        let ghost pre = *self;
        if self.find(connection.uuid).is_some() {
            return false;
        }
        self.entries.push(connection);
        proof {
            let n = pre.entries@.len() as int;
            assert(self.order() =~= pre.order().push(k));
            assert(!pre.order().contains(k));
            assert forall|a: int, b: int|
                0 <= a < b < self.order().len() implies self.order()[a] != self.order()[b] by {
                if b == n {
                    assert(pre.order()[a] != k);
                } else {
                    assert(pre.order()[a] != pre.order()[b]);
                }
            }
            self.lemma_slot(n);
            assert forall|key: u128|
                #[trigger] self.view().contains_key(key) <==> pre.view().insert(
                    k,
                    v,
                ).contains_key(key) by {
                if self.order().contains(key) && key != k {
                    let j = self.order().index_of(key);
                    assert(pre.order()[j] == key);
                }
                if pre.order().contains(key) {
                    let j = pre.order().index_of(key);
                    assert(self.order()[j] == key);
                }
            }
            assert forall|key: u128| #[trigger]
                self.view().contains_key(key) implies self.view()[key] == pre.view().insert(
                    k,
                    v,
                )[key] by {
                if key != k {
                    let j = self.order().index_of(key);
                    self.lemma_slot(j);
                    pre.lemma_slot(j);
                }
            }
            assert(self.view() =~= pre.view().insert(k, v));
        }
        true
    }

    /// Removes the connection with a UUID; tells whether there was one.
    pub fn remove(&mut self, uuid: u128) -> (r: bool)
        requires
            old(self).wf(),
        ensures
            final(self).wf(),
            r == old(self).view().contains_key(uuid),
            final(self).view() == old(self).view().remove(uuid),
    {
        let ghost k = uuid;
        let ghost pre = *self;
        match self.find(uuid) {
            Some(i) => {
                self.entries.remove(i);
                proof {
                    assert(self.order() =~= pre.order().remove(i as int));
                    assert forall|a: int, b: int|
                        0 <= a < b < self.order().len() implies self.order()[a]
                        != self.order()[b] by {
                        let pa = if a < i { a } else { a + 1 };
                        let pb = if b < i { b } else { b + 1 };
                        assert(pre.order()[pa] != pre.order()[pb]);
                    }
                    assert forall|key: u128|
                        #[trigger] self.view().contains_key(key) <==> pre.view().remove(
                            k,
                        ).contains_key(key) by {
                        if self.order().contains(key) {
                            let j = self.order().index_of(key);
                            let pj = if j < i { j } else { j + 1 };
                            assert(pre.order()[pj] == key);
                            assert(pre.order()[i as int] == k);
                        }
                        if pre.order().contains(key) && key != k {
                            let j = pre.order().index_of(key);
                            assert(j != i);
                            let sj = if j < i { j } else { j - 1 };
                            assert(self.order()[sj] == key);
                        }
                    }
                    assert forall|key: u128| #[trigger]
                        self.view().contains_key(key) implies self.view()[key] == pre.view().remove(
                            k,
                        )[key] by {
                        let j = self.order().index_of(key);
                        let pj = if j < i { j } else { j + 1 };
                        self.lemma_slot(j);
                        pre.lemma_slot(pj);
                    }
                    assert(self.view() =~= pre.view().remove(k));
                }
                true
            },
            None => {
                proof {
                    assert(self.view() =~= pre.view().remove(k));
                }
                false
            },
        }
    }

    pub fn clear(&mut self)
        ensures
            final(self).wf(),
            final(self).view() == Map::<u128, ConnectionView>::empty(),
    {
        self.entries.clear();
        assert(self.view() =~= Map::<u128, ConnectionView>::empty());
    }

    /// The set of a list of connections; where a UUID comes twice, the earlier
    /// connection stays.
    pub fn from_connections(conns: Vec<TrustedConnection>) -> (r: ImportedConnections)
        ensures
            r.wf(),
            r.view() == imported_map(conns@),
    {
        let mut r = ImportedConnections::new();
        let mut i: usize = 0;
        while i < conns.len()
            invariant
                r.wf(),
                i <= conns@.len(),
                r.view() == imported_map(conns@.subrange(0, i as int)),
            decreases conns@.len() - i,
        {
            proof {
                assert(conns@.subrange(0, i + 1).drop_last() =~= conns@.subrange(0, i as int));
            }
            r.insert(conns[i].copied());
            i = i + 1;
        }
        proof {
            assert(conns@.subrange(0, i as int) =~= conns@);
        }
        r
    }

    /// The imported connections, in the set's order.
    pub fn trusts(&self) -> (r: Vec<TrustedConnection>)
        requires
            self.wf(),
        ensures
            r@.len() == self.order().len(),
            forall|i: int| 0 <= i < r@.len() ==> #[trigger] r@[i]@ == self.view()[self.order()[i]],
            forall|i: int| 0 <= i < r@.len() ==> #[trigger] r@[i].uuid == self.order()[i],
    {
        let mut r: Vec<TrustedConnection> = Vec::new();
        let mut i: usize = 0;
        while i < self.entries.len()
            invariant
                self.wf(),
                i <= self.entries@.len(),
                r@.len() == i,
                forall|j: int| 0 <= j < i ==> #[trigger] r@[j]@ == self.view()[self.order()[j]],
                forall|j: int| 0 <= j < i ==> #[trigger] r@[j].uuid == self.order()[j],
            decreases self.entries@.len() - i,
        {
            proof {
                self.lemma_slot(i as int);
                assert(self.order()[i as int] == self.entries@[i as int].uuid);
            }
            r.push(self.entries[i].copied());
            i = i + 1;
        }
        r
    }
}

} // verus!
