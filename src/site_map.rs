use vstd::prelude::*;

use crate::connection::{RemoteConnectionView, TrustedConnection, TrustedConnectionWithRemote};
use crate::site_id::{SiteID, SiteKey};

verus! {

/// Connections keyed by site, each site at most once.
///
/// A `Vec` of pairs rather than a std `HashMap`: with a key made of two
/// `String`s, vstd's specification of `HashMap` proves nothing about lookups,
/// and the order in which a `HashMap` is walked is seeded per process, so no
/// contract could name the order in which sites are handed out. Here that
/// order is `order()`, and callers' contracts speak of it.
#[derive(Debug, Clone)]
pub struct SiteMap {
    entries: Vec<(SiteID, TrustedConnectionWithRemote)>,
}

pub open spec fn entry_key(e: (SiteID, TrustedConnectionWithRemote)) -> SiteKey {
    e.0.key()
}

/// `pairs` lists each site of `m` once, in the map's order, with its connection.
pub open spec fn lists_pairs_of(m: SiteMap, pairs: Seq<(SiteID, TrustedConnectionWithRemote)>) -> bool {
    &&& pairs.len() == m.order().len()
    &&& forall|i: int| 0 <= i < pairs.len() ==> #[trigger] pairs[i].0.key() == m.order()[i]
    &&& forall|i: int| 0 <= i < pairs.len() ==> #[trigger] pairs[i].1@ == m.view()[m.order()[i]]
}

/// Rebuilding from the pairs that a map hands out gives the same map.
pub proof fn lemma_pairs_round_trip(m: SiteMap, pairs: Seq<(SiteID, TrustedConnectionWithRemote)>)
    requires
        m.wf(),
        lists_pairs_of(m, pairs),
    ensures
        pairs_map(pairs) == m.view(),
{
    m.lemma_order();
    lemma_pairs_prefix(m, pairs, pairs.len() as int);
    assert(pairs.subrange(0, pairs.len() as int) =~= pairs);
    assert(m.order().subrange(0, pairs.len() as int) =~= m.order());
    assert(m.view().restrict(m.order().to_set()) =~= m.view());
}

proof fn lemma_pairs_prefix(m: SiteMap, pairs: Seq<(SiteID, TrustedConnectionWithRemote)>, n: int)
    requires
        m.wf(),
        0 <= n <= pairs.len(),
        lists_pairs_of(m, pairs),
    ensures
        pairs_map(pairs.subrange(0, n)) == m.view().restrict(m.order().subrange(0, n).to_set()),
    decreases n,
{
    m.lemma_order();
    if n == 0 {
        assert(m.view().restrict(m.order().subrange(0, 0).to_set()) =~= Map::empty());
    } else {
        lemma_pairs_prefix(m, pairs, n - 1);
        assert(pairs.subrange(0, n).drop_last() =~= pairs.subrange(0, n - 1));
        let k = m.order()[n - 1];
        assert(m.order().subrange(0, n) =~= m.order().subrange(0, n - 1) + seq![k]);
        Seq::lemma_to_set_insert_commutes(m.order().subrange(0, n - 1), k);
        assert(m.order().to_set().contains(k));
        assert(m.view().restrict(m.order().subrange(0, n).to_set()) =~= m.view().restrict(
            m.order().subrange(0, n - 1).to_set(),
        ).insert(k, m.view()[k]));
    }
}

/// The map that a list of pairs gives, taken in order: where a site comes
/// twice, the later pair wins.
pub open spec fn pairs_map(pairs: Seq<(SiteID, TrustedConnectionWithRemote)>) -> Map<
    SiteKey,
    RemoteConnectionView,
>
    decreases pairs.len(),
{
    if pairs.len() == 0 {
        Map::empty()
    } else {
        pairs_map(pairs.drop_last()).insert(pairs.last().0.key(), pairs.last().1@)
    }
}

impl SiteMap {
    /// The sites in the order in which the map hands them out.
    pub closed spec fn order(&self) -> Seq<SiteKey> {
        self.entries@.map_values(|e: (SiteID, TrustedConnectionWithRemote)| entry_key(e))
    }

    pub closed spec fn wf(&self) -> bool {
        self.order().no_duplicates()
    }

    closed spec fn slot(&self, k: SiteKey) -> int {
        choose|i: int| 0 <= i < self.entries@.len() && self.entries@[i].0.key() == k
    }

    pub closed spec fn view(&self) -> Map<SiteKey, RemoteConnectionView> {
        Map::new(|k: SiteKey| self.order().contains(k), |k: SiteKey| self.entries@[self.slot(k)].1@)
    }

    /// The order lists each site of the map once.
    pub proof fn lemma_order(&self)
        requires
            self.wf(),
        ensures
            self.order().no_duplicates(),
            self.order().to_set() == self.view().dom(),
            self.order().len() == self.view().len(),
    {
        assert(self.order().to_set() =~= self.view().dom());
        self.order().unique_seq_to_set();
    }

    proof fn lemma_slot(&self, i: int)
        requires
            self.wf(),
            0 <= i < self.entries@.len(),
        ensures
            self.slot(self.entries@[i].0.key()) == i,
            self.view().contains_key(self.entries@[i].0.key()),
            self.view()[self.entries@[i].0.key()] == self.entries@[i].1@,
    {
        let k = self.entries@[i].0.key();
        assert(self.order()[i] == k);
        let j = self.slot(k);
        assert(self.order()[j] == k);
    }

    proof fn lemma_replace_value(&self, m: SiteMap, i: int, x: TrustedConnectionWithRemote)
        requires
            self.wf(),
            0 <= i < self.entries@.len(),
            m.entries@ == self.entries@.update(i, (self.entries@[i].0, x)),
        ensures
            m.wf(),
            m.view() == self.view().insert(self.entries@[i].0.key(), x@),
    {
        let k = self.entries@[i].0.key();
        assert(m.order() =~= self.order());
        m.lemma_slot(i);
        assert forall|key: SiteKey| #[trigger]
            m.view().contains_key(key) implies m.view()[key] == self.view().insert(k, x@)[key] by {
            if key != k {
                let j = m.order().index_of(key);
                m.lemma_slot(j);
                self.lemma_slot(j);
            }
        }
        assert(m.view() =~= self.view().insert(k, x@));
    }

    pub fn new() -> (r: SiteMap)
        ensures
            r.wf(),
            r.view() == Map::<SiteKey, RemoteConnectionView>::empty(),
    {
        let r = SiteMap { entries: Vec::new() };
        assert(r.view() =~= Map::<SiteKey, RemoteConnectionView>::empty());
        r
    }

    fn find(&self, id: &SiteID) -> (r: Option<usize>)
        requires
            self.wf(),
        ensures
            r is None <==> !self.view().contains_key(id.key()),
            r matches Some(i) ==> i < self.entries@.len() && self.entries@[i as int].0.key()
                == id.key(),
    {
        let mut i: usize = 0;
        while i < self.entries.len()
            invariant
                self.wf(),
                i <= self.entries@.len(),
                forall|j: int| 0 <= j < i ==> self.entries@[j].0.key() != id.key(),
            decreases self.entries@.len() - i,
        {
            if self.entries[i].0.same_site(id) {
                proof {
                    self.lemma_slot(i as int);
                }
                return Some(i);
            }
            i = i + 1;
        }
        proof {
            if self.view().contains_key(id.key()) {
                let j = self.order().index_of(id.key());
                assert(self.order()[j] == id.key());
            }
        }
        None
    }

    pub fn len(&self) -> (r: usize)
        requires
            self.wf(),
        ensures
            r == self.view().len(),
    {
        proof {
            self.lemma_order();
        }
        self.entries.len()
    }

    pub fn is_empty(&self) -> (r: bool)
        requires
            self.wf(),
        ensures
            r == (self.view() == Map::<SiteKey, RemoteConnectionView>::empty()),
    {
        proof {
            if self.entries@.len() == 0 {
                assert(self.view() =~= Map::<SiteKey, RemoteConnectionView>::empty());
            } else {
                self.lemma_slot(0);
                assert(!Map::<SiteKey, RemoteConnectionView>::empty().contains_key(
                    self.entries@[0].0.key(),
                ));
            }
        }
        self.entries.len() == 0
    }

    pub fn contains(&self, id: &SiteID) -> (r: bool)
        requires
            self.wf(),
        ensures
            r == self.view().contains_key(id.key()),
    {
        self.find(id).is_some()
    }

    pub fn get(&self, id: &SiteID) -> (r: Option<&TrustedConnectionWithRemote>)
        requires
            self.wf(),
        ensures
            r is Some == self.view().contains_key(id.key()),
            r matches Some(c) ==> c@ == self.view()[id.key()],
    {
        match self.find(id) {
            Some(i) => {
                proof {
                    self.lemma_slot(i as int);
                }
                Some(&self.entries[i].1)
            },
            None => None,
        }
    }

    /// Sets the connection of a site, in place of any it had.
    pub fn insert(&mut self, id: SiteID, connection: TrustedConnectionWithRemote)
        requires
            old(self).wf(),
        ensures
            final(self).wf(),
            final(self).view() == old(self).view().insert(id.key(), connection@),
    {
        let ghost k = id.key();
        let ghost v = connection@;
        let ghost pre = *self;
        match self.find(&id) {
            Some(i) => {
                self.entries.set(i, (id, connection));
                proof {
                    assert(self.order() =~= pre.order().update(i as int, k));
                    assert forall|a: int, b: int|
                        0 <= a < b < self.order().len() implies self.order()[a]
                        != self.order()[b] by {
                        assert(pre.order()[a] != pre.order()[b]);
                    }
                    self.lemma_slot(i as int);
                    assert forall|key: SiteKey|
                        #[trigger] self.view().contains_key(key) <==> pre.view().insert(
                            k,
                            v,
                        ).contains_key(key) by {
                        if self.order().contains(key) {
                            let j = self.order().index_of(key);
                            assert(pre.order()[j] == key || j == i);
                        }
                        if pre.order().contains(key) && key != k {
                            let j = pre.order().index_of(key);
                            assert(self.order()[j] == key);
                        }
                    }
                    assert forall|key: SiteKey| #[trigger]
                        self.view().contains_key(key) implies self.view()[key] == pre.view().insert(
                            k,
                            v,
                        )[key] by {
                        if key != k {
                            let j = self.order().index_of(key);
                            self.lemma_slot(j);
                            pre.lemma_slot(j);
                        }
                    }
                    assert(self.view() =~= pre.view().insert(k, v));
                }
            },
            None => {
                self.entries.push((id, connection));
                proof {
                    let n = pre.entries@.len() as int;
                    assert(self.order() =~= pre.order().push(k));
                    assert(!pre.order().contains(k));
                    assert forall|a: int, b: int|
                        0 <= a < b < self.order().len() implies self.order()[a]
                        != self.order()[b] by {
                        if b == n {
                            assert(pre.order()[a] != k);
                        } else {
                            assert(pre.order()[a] != pre.order()[b]);
                        }
                    }
                    self.lemma_slot(n);
                    assert forall|key: SiteKey|
                        #[trigger] self.view().contains_key(key) <==> pre.view().insert(
                            k,
                            v,
                        ).contains_key(key) by {
                        if self.order().contains(key) && key != k {
                            let j = self.order().index_of(key);
                            assert(pre.order()[j] == key);
                        }
                        if pre.order().contains(key) {
                            let j = pre.order().index_of(key);
                            assert(self.order()[j] == key);
                        }
                    }
                    assert forall|key: SiteKey| #[trigger]
                        self.view().contains_key(key) implies self.view()[key] == pre.view().insert(
                            k,
                            v,
                        )[key] by {
                        if key != k {
                            let j = self.order().index_of(key);
                            self.lemma_slot(j);
                            pre.lemma_slot(j);
                        }
                    }
                    assert(self.view() =~= pre.view().insert(k, v));
                }
            },
        }
    }

    /// Removes the connection of a site; tells whether there was one.
    pub fn remove(&mut self, id: &SiteID) -> (r: bool)
        requires
            old(self).wf(),
        ensures
            final(self).wf(),
            r == old(self).view().contains_key(id.key()),
            final(self).view() == old(self).view().remove(id.key()),
    {
        let ghost k = id.key();
        let ghost pre = *self;
        match self.find(id) {
            Some(i) => {
                self.entries.remove(i);
                proof {
                    assert(self.order() =~= pre.order().remove(i as int));
                    assert forall|a: int, b: int|
                        0 <= a < b < self.order().len() implies self.order()[a]
                        != self.order()[b] by {
                        let pa = if a < i { a } else { a + 1 };
                        let pb = if b < i { b } else { b + 1 };
                        assert(pre.order()[pa] != pre.order()[pb]);
                    }
                    assert forall|key: SiteKey|
                        #[trigger] self.view().contains_key(key) <==> pre.view().remove(
                            k,
                        ).contains_key(key) by {
                        if self.order().contains(key) {
                            let j = self.order().index_of(key);
                            let pj = if j < i { j } else { j + 1 };
                            assert(pre.order()[pj] == key);
                            assert(pre.order()[i as int] == k);
                        }
                        if pre.order().contains(key) && key != k {
                            let j = pre.order().index_of(key);
                            assert(j != i);
                            let sj = if j < i { j } else { j - 1 };
                            assert(self.order()[sj] == key);
                        }
                    }
                    assert forall|key: SiteKey| #[trigger]
                        self.view().contains_key(key) implies self.view()[key] == pre.view().remove(
                            k,
                        )[key] by {
                        let j = self.order().index_of(key);
                        let pj = if j < i { j } else { j + 1 };
                        self.lemma_slot(j);
                        pre.lemma_slot(pj);
                    }
                    assert(self.view() =~= pre.view().remove(k));
                }
                true
            },
            None => {
                proof {
                    assert(self.view() =~= pre.view().remove(k));
                }
                false
            },
        }
    }

    pub fn clear(&mut self)
        ensures
            final(self).wf(),
            final(self).view() == Map::<SiteKey, RemoteConnectionView>::empty(),
    {
        self.entries.clear();
        assert(self.view() =~= Map::<SiteKey, RemoteConnectionView>::empty());
    }

    /// The sites, in the map's order.
    pub fn site_ids(&self) -> (r: Vec<SiteID>)
        requires
            self.wf(),
        ensures
            r@.map_values(|s: SiteID| s.key()) == self.order(),
    {
        let mut r: Vec<SiteID> = Vec::new();
        let mut i: usize = 0;
        while i < self.entries.len()
            invariant
                i <= self.entries@.len(),
                r@.map_values(|s: SiteID| s.key()) == self.order().subrange(0, i as int),
            decreases self.entries@.len() - i,
        {
            let ghost before = r@;
            assert(self.order()[i as int] == self.entries@[i as int].0.key());
            r.push(self.entries[i].0.copied());
            assert(r@.map_values(|s: SiteID| s.key()) =~= before.map_values(|s: SiteID| s.key()).push(
                self.order()[i as int],
            ));
            i = i + 1;
            assert(r@.map_values(|s: SiteID| s.key()) =~= self.order().subrange(0, i as int));
        }
        assert(self.order().subrange(0, i as int) =~= self.order());
        r
    }

    /// Each site with its connection, in the map's order.
    pub fn pairs(&self) -> (r: Vec<(SiteID, TrustedConnectionWithRemote)>)
        requires
            self.wf(),
        ensures
            r@.len() == self.order().len(),
            forall|i: int| 0 <= i < r@.len() ==> #[trigger] r@[i].0.key() == self.order()[i],
            forall|i: int| 0 <= i < r@.len() ==> #[trigger] r@[i].1@ == self.view()[self.order()[i]],
    {
        let mut r: Vec<(SiteID, TrustedConnectionWithRemote)> = Vec::new();
        let mut i: usize = 0;
        while i < self.entries.len()
            invariant
                self.wf(),
                i <= self.entries@.len(),
                r@.len() == i,
                forall|j: int| 0 <= j < i ==> #[trigger] r@[j].0.key() == self.order()[j],
                forall|j: int| 0 <= j < i ==> #[trigger] r@[j].1@ == self.view()[self.order()[j]],
            decreases self.entries@.len() - i,
        {
            proof {
                self.lemma_slot(i as int);
                assert(self.order()[i as int] == self.entries@[i as int].0.key());
            }
            r.push((self.entries[i].0.copied(), self.entries[i].1.copied()));
            i = i + 1;
        }
        r
    }

    /// The connection of a site, to change in place.
    pub fn get_mut(&mut self, id: &SiteID) -> (r: Option<&mut TrustedConnectionWithRemote>)
        requires
            old(self).wf(),
        ensures
            r is Some == old(self).view().contains_key(id.key()),
            match r {
                Some(c) => {
                    &&& c@ == old(self).view()[id.key()]
                    &&& final(self).wf()
                    &&& final(self).view() == old(self).view().insert(id.key(), final(c)@)
                },
                None => *final(self) == *old(self),
            },
    {
        match self.find(id) {
            Some(i) => {
                proof {
                    self.lemma_slot(i as int);
                    assert forall|m: SiteMap, x: TrustedConnectionWithRemote|
                        #![trigger m.view(), x.view()]
                        m.entries@ == self.entries@.update(i as int, (self.entries@[i as int].0, x))
                        implies m.wf() && m.view() == self.view().insert(id.key(), x@) by {
                        self.lemma_replace_value(m, i as int, x);
                    }
                    assert forall|m: SiteMap|
                        m.entries@ == self.entries@.update(
                            i as int,
                            (self.entries@[i as int].0, m.entries@[i as int].1),
                        ) implies #[trigger] m.wf() by {
                        self.lemma_replace_value(m, i as int, m.entries@[i as int].1);
                    }
                }
                Some(&mut self.entries[i].1)
            },
            None => None,
        }
    }

    /// The map of a list of pairs; where a site comes twice, the later pair wins.
    pub fn from_pairs(pairs: Vec<(SiteID, TrustedConnectionWithRemote)>) -> (r: SiteMap)
        ensures
            r.wf(),
            r.view() == pairs_map(pairs@),
    {
        let mut r = SiteMap::new();
        let mut i: usize = 0;
        while i < pairs.len()
            invariant
                r.wf(),
                i <= pairs@.len(),
                r.view() == pairs_map(pairs@.subrange(0, i as int)),
            decreases pairs@.len() - i,
        {
            proof {
                assert(pairs@.subrange(0, i + 1).drop_last() =~= pairs@.subrange(0, i as int));
            }
            r.insert(pairs[i].0.copied(), pairs[i].1.copied());
            i = i + 1;
        }
        proof {
            assert(pairs@.subrange(0, i as int) =~= pairs@);
        }
        r
    }

    /// The trusted connections, in the map's order.
    pub fn trusts(&self) -> (r: Vec<TrustedConnection>)
        requires
            self.wf(),
        ensures
            r@.len() == self.order().len(),
            forall|i: int| 0 <= i < r@.len() ==> #[trigger] r@[i]@ == self.view()[self.order()[i]].trust,
    {
        let mut r: Vec<TrustedConnection> = Vec::new();
        let mut i: usize = 0;
        while i < self.entries.len()
            invariant
                self.wf(),
                i <= self.entries@.len(),
                r@.len() == i,
                forall|j: int| 0 <= j < i ==> #[trigger] r@[j]@ == self.view()[self.order()[j]].trust,
            decreases self.entries@.len() - i,
        {
            proof {
                self.lemma_slot(i as int);
            }
            r.push(self.entries[i].1.trust.copied());
            i = i + 1;
        }
        r
    }
}

} // verus!
