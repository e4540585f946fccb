use vstd::prelude::*;

verus! {

/// Agent labels: a value under each name, each name at most once.
///
/// A `Vec` of pairs rather than a std `HashMap<String, String>`: with `String`
/// keys vstd's specification of `HashMap` proves nothing about lookups, so the
/// rule that a user's label overrides an automatic one could not be proved.
#[derive(Debug, Clone)]
pub struct AgentLabels {
    entries: Vec<(String, String)>,
}

impl AgentLabels {
    /// The names in the order in which the labels hand them out.
    pub closed spec fn order(&self) -> Seq<Seq<char>> {
        self.entries@.map_values(|e: (String, String)| e.0@)
    }

    pub closed spec fn wf(&self) -> bool {
        self.order().no_duplicates()
    }

    closed spec fn slot(&self, k: Seq<char>) -> int {
        choose|i: int| 0 <= i < self.entries@.len() && self.entries@[i].0@ == k
    }

    pub closed spec fn view(&self) -> Map<Seq<char>, Seq<char>> {
        Map::new(|k: Seq<char>| self.order().contains(k), |k: Seq<char>| self.entries@[self.slot(k)].1@)
    }

    proof fn lemma_slot(&self, i: int)
        requires
            self.wf(),
            0 <= i < self.entries@.len(),
        ensures
            self.slot(self.entries@[i].0@) == i,
            self.view().contains_key(self.entries@[i].0@),
            self.view()[self.entries@[i].0@] == self.entries@[i].1@,
    {
        let k = self.entries@[i].0@;
        assert(self.order()[i] == k);
        let j = self.slot(k);
        assert(self.order()[j] == k);
    }

    /// No label.
    pub fn new() -> (r: AgentLabels)
        ensures
            r.wf(),
            r.view() == Map::<Seq<char>, Seq<char>>::empty(),
    {
        let r = AgentLabels { entries: Vec::new() };
        assert(r.view() =~= Map::<Seq<char>, Seq<char>>::empty());
        r
    }

    fn find(&self, name: &str) -> (r: Option<usize>)
        requires
            self.wf(),
        ensures
            r is None <==> !self.view().contains_key(name@),
            r matches Some(i) ==> i < self.entries@.len() && self.entries@[i as int].0@ == name@,
    {
        let wanted = String::from_str(name);
        let mut i: usize = 0;
        while i < self.entries.len()
            invariant
                self.wf(),
                wanted@ == name@,
                i <= self.entries@.len(),
                forall|j: int| 0 <= j < i ==> self.entries@[j].0@ != name@,
            decreases self.entries@.len() - i,
        {
            if self.entries[i].0 == wanted {
                proof {
                    self.lemma_slot(i as int);
                }
                return Some(i);
            }
            i = i + 1;
        }
        proof {
            if self.view().contains_key(name@) {
                let j = self.order().index_of(name@);
                assert(self.order()[j] == name@);
            }
        }
        None
    }

    /// How many labels there are.
    pub fn len(&self) -> (r: usize)
        requires
            self.wf(),
        ensures
            r == self.view().len(),
    {
        proof {
            assert(self.order().to_set() =~= self.view().dom());
            self.order().unique_seq_to_set();
        }
        self.entries.len()
    }

    /// The value under a name.
    pub fn get(&self, name: &str) -> (r: Option<&String>)
        requires
            self.wf(),
        ensures
            r is Some == self.view().contains_key(name@),
            r matches Some(v) ==> v@ == self.view()[name@],
    {
        match self.find(name) {
            Some(i) => {
                proof {
                    self.lemma_slot(i as int);
                }
                Some(&self.entries[i].1)
            },
            None => None,
        }
    }

    /// Sets the value under a name, in place of any it had.
    pub fn insert(&mut self, name: String, value: String)
        requires
            old(self).wf(),
        ensures
            final(self).wf(),
            final(self).view() == old(self).view().insert(name@, value@),
    {
        let ghost k = name@;
        let ghost v = value@;
        let ghost pre = *self;
        match self.find(name.as_str()) {
            Some(i) => {
                self.entries.set(i, (name, value));
                proof {
                    assert(self.order() =~= pre.order().update(i as int, k));
                    assert forall|a: int, b: int|
                        0 <= a < b < self.order().len() implies self.order()[a]
                        != self.order()[b] by {
                        assert(pre.order()[a] != pre.order()[b]);
                    }
                    self.lemma_slot(i as int);
                    assert forall|key: Seq<char>|
                        #[trigger] self.view().contains_key(key) <==> pre.view().insert(
                            k,
                            v,
                        ).contains_key(key) by {
                        if self.order().contains(key) {
                            let j = self.order().index_of(key);
                            assert(pre.order()[j] == key || j == i);
                        }
                        if pre.order().contains(key) && key != k {
                            let j = pre.order().index_of(key);
                            assert(self.order()[j] == key);
                        }
                    }
                    assert forall|key: Seq<char>| #[trigger]
                        self.view().contains_key(key) implies self.view()[key] == pre.view().insert(
                            k,
                            v,
                        )[key] by {
                        if key != k {
                            let j = self.order().index_of(key);
                            self.lemma_slot(j);
                            pre.lemma_slot(j);
                        }
                    }
                    assert(self.view() =~= pre.view().insert(k, v));
                }
            },
            None => {
                self.entries.push((name, value));
                proof {
                    let n = pre.entries@.len() as int;
                    assert(self.order() =~= pre.order().push(k));
                    assert(!pre.order().contains(k));
                    assert forall|a: int, b: int|
                        0 <= a < b < self.order().len() implies self.order()[a]
                        != self.order()[b] by {
                        if b == n {
                            assert(pre.order()[a] != k);
                        } else {
                            assert(pre.order()[a] != pre.order()[b]);
                        }
                    }
                    self.lemma_slot(n);
                    assert forall|key: Seq<char>|
                        #[trigger] self.view().contains_key(key) <==> pre.view().insert(
                            k,
                            v,
                        ).contains_key(key) by {
                        if self.order().contains(key) && key != k {
                            let j = self.order().index_of(key);
                            assert(pre.order()[j] == key);
                        }
                        if pre.order().contains(key) {
                            let j = pre.order().index_of(key);
                            assert(self.order()[j] == key);
                        }
                    }
                    assert forall|key: Seq<char>| #[trigger]
                        self.view().contains_key(key) implies self.view()[key] == pre.view().insert(
                            k,
                            v,
                        )[key] by {
                        if key != k {
                            let j = self.order().index_of(key);
                            self.lemma_slot(j);
                            pre.lemma_slot(j);
                        }
                    }
                    assert(self.view() =~= pre.view().insert(k, v));
                }
            },
        }
    }

    /// Adds every label of `other`; where both have a name, `other`'s value wins.
    pub fn extend(&mut self, other: AgentLabels)
        requires
            old(self).wf(),
            other.wf(),
        ensures
            final(self).wf(),
            final(self).view() == old(self).view().union_prefer_right(other.view()),
    {
        let ghost start = self.view();
        let mut i: usize = 0;
        while i < other.entries.len()
            invariant
                self.wf(),
                other.wf(),
                i <= other.entries@.len(),
                self.view() == start.union_prefer_right(
                    other.view().restrict(other.order().subrange(0, i as int).to_set()),
                ),
            decreases other.entries@.len() - i,
        {
            let ghost before = self.view();
            let (name, value) = (other.entries[i].0.clone(), other.entries[i].1.clone());
            self.insert(name, value);
            proof {
                other.lemma_slot(i as int);
                let k = other.entries@[i as int].0@;
                assert(other.order()[i as int] == k);
                assert(other.order().subrange(0, i + 1).to_set() =~= other.order().subrange(
                    0,
                    i as int,
                ).to_set().insert(k)) by {
                    let pre = other.order().subrange(0, i as int);
                    assert(other.order().subrange(0, i + 1) =~= pre + seq![k]);
                    Seq::lemma_to_set_insert_commutes(pre, k);
                }
                assert(self.view() =~= start.union_prefer_right(
                    other.view().restrict(other.order().subrange(0, i + 1).to_set()),
                ));
            }
            i = i + 1;
        }
        proof {
            assert(other.order().subrange(0, i as int) =~= other.order());
            assert(other.order().to_set() =~= other.view().dom());
            assert(other.view().restrict(other.order().to_set()) =~= other.view());
        }
    }

    /// The names, in the labels' order.
    pub fn keys(&self) -> (r: Vec<String>)
        requires
            self.wf(),
        ensures
            r@.map_values(|s: String| s@) == self.order(),
            self.order().to_set() == self.view().dom(),
            self.order().no_duplicates(),
    {
        let mut r: Vec<String> = Vec::new();
        let mut i: usize = 0;
        while i < self.entries.len()
            invariant
                i <= self.entries@.len(),
                r@.map_values(|s: String| s@) == self.order().subrange(0, i as int),
            decreases self.entries@.len() - i,
        {
            let ghost before = r@;
            assert(self.order()[i as int] == self.entries@[i as int].0@);
            r.push(self.entries[i].0.clone());
            assert(r@.map_values(|s: String| s@) =~= before.map_values(|s: String| s@).push(
                self.order()[i as int],
            ));
            i = i + 1;
            assert(r@.map_values(|s: String| s@) =~= self.order().subrange(0, i as int));
        }
        assert(self.order().subrange(0, i as int) =~= self.order());
        assert(self.order().to_set() =~= self.view().dom());
        r
    }
}

} // verus!
