//! Per-goal progress counters, keyed by goal id.

use vstd::prelude::*;

verus! {

/// Goal ids are pairwise distinct.
pub open spec fn keys_unique(e: Seq<(String, u32)>) -> bool {
    forall|i: int, j: int| 0 <= i < j < e.len() ==> (#[trigger] e[i]).0@ != (#[trigger] e[j]).0@
}

/// The map from goal id to counter that `e` lists.
pub open spec fn entries_map(e: Seq<(String, u32)>) -> Map<Seq<char>, u32>
    decreases e.len(),
{
    if e.len() == 0 {
        Map::empty()
    } else {
        entries_map(e.drop_last()).insert(e.last().0@, e.last().1)
    }
}

proof fn lemma_entries_dom(e: Seq<(String, u32)>, k: Seq<char>)
    ensures
        entries_map(e).dom().contains(k) <==> exists|i: int| 0 <= i < e.len() && (#[trigger] e[i]).0@ == k,
    decreases e.len(),
{
    if e.len() > 0 {
        let d = e.drop_last();
        lemma_entries_dom(d, k);
        if entries_map(e).dom().contains(k) && e.last().0@ != k {
            let i = choose|i: int| 0 <= i < d.len() && (#[trigger] d[i]).0@ == k;
            assert(e[i] == d[i]);
        }
        if exists|i: int| 0 <= i < e.len() && (#[trigger] e[i]).0@ == k {
            let i = choose|i: int| 0 <= i < e.len() && (#[trigger] e[i]).0@ == k;
            if i < e.len() - 1 {
                assert(d[i] == e[i]);
            }
        }
    }
}

proof fn lemma_entries_value(e: Seq<(String, u32)>, i: int)
    requires
        keys_unique(e),
        0 <= i < e.len(),
    ensures
        entries_map(e).dom().contains(e[i].0@),
        entries_map(e)[e[i].0@] == e[i].1,
    decreases e.len(),
{
    let d = e.drop_last();
    if i < e.len() - 1 {
        assert(d[i] == e[i]);
        assert(e[i].0@ != e[e.len() - 1].0@);
        lemma_entries_value(d, i);
    }
}

proof fn lemma_entries_update(e: Seq<(String, u32)>, i: int, v: u32)
    requires
        keys_unique(e),
        0 <= i < e.len(),
    ensures
        keys_unique(e.update(i, (e[i].0, v))),
        entries_map(e.update(i, (e[i].0, v))) == entries_map(e).insert(e[i].0@, v),
    decreases e.len(),
{
    let u = e.update(i, (e[i].0, v));
    assert forall|a: int, b: int| 0 <= a < b < u.len() implies (#[trigger] u[a]).0@ != (#[trigger] u[b]).0@ by {
        assert(u[a].0@ == e[a].0@ && u[b].0@ == e[b].0@);
    }
    let d = e.drop_last();
    if i == e.len() - 1 {
        assert(u.drop_last() =~= d);
        assert(entries_map(u) =~= entries_map(e).insert(e[i].0@, v));
    } else {
        assert(u.drop_last() =~= d.update(i, (d[i].0, v)));
        assert(d[i] == e[i]);
        lemma_entries_update(d, i, v);
        assert(e[i].0@ != e.last().0@);
        assert(entries_map(u) =~= entries_map(e).insert(e[i].0@, v));
    }
}

/// Progress counters for the current week's goals, keyed by goal id.
#[derive(Debug)]
pub struct GoalProgress {
    entries: Vec<(String, u32)>,
}

impl View for GoalProgress {
    type V = Map<Seq<char>, u32>;

    closed spec fn view(&self) -> Map<Seq<char>, u32> {
        entries_map(self.entries@)
    }
}

impl Clone for GoalProgress {
    fn clone(&self) -> (c: Self)
        ensures
            c@ == self@,
    {
        proof {
            use_type_invariant(self);
        }
        let mut entries: Vec<(String, u32)> = Vec::new();
        let mut i: usize = 0;
        while i < self.entries.len()
            invariant
                i <= self.entries@.len(),
                keys_unique(self.entries@),
                entries@.len() == i,
                forall|j: int| 0 <= j < i ==> (#[trigger] entries@[j]).0@ == self.entries@[j].0@
                    && entries@[j].1 == self.entries@[j].1,
            decreases self.entries@.len() - i,
        {
            let k = self.entries[i].0.clone();
            entries.push((k, self.entries[i].1));
            i = i + 1;
        }
        proof {
            lemma_entries_same_map(entries@, self.entries@);
        }
        GoalProgress { entries }
    }
}

proof fn lemma_entries_same_map(a: Seq<(String, u32)>, b: Seq<(String, u32)>)
    requires
        a.len() == b.len(),
        forall|j: int| 0 <= j < a.len() ==> (#[trigger] a[j]).0@ == b[j].0@ && a[j].1 == b[j].1,
    ensures
        entries_map(a) == entries_map(b),
        keys_unique(b) ==> keys_unique(a),
    decreases a.len(),
{
    if a.len() > 0 {
        lemma_entries_same_map(a.drop_last(), b.drop_last());
        assert(a.last().0@ == b.last().0@);
    }
    if keys_unique(b) {
        assert forall|i: int, j: int| 0 <= i < j < a.len() implies (#[trigger] a[i]).0@
            != (#[trigger] a[j]).0@ by {
            assert(a[i].0@ == b[i].0@ && a[j].0@ == b[j].0@);
        }
    }
}

impl GoalProgress {
    #[verifier::type_invariant]
    spec fn inv(self) -> bool {
        keys_unique(self.entries@)
    }

    /// No counters.
    pub fn new() -> (g: GoalProgress)
        ensures
            g@ == Map::<Seq<char>, u32>::empty(),
    {
        GoalProgress { entries: Vec::new() }
    }

    /// Whether no goal has a counter.
    pub fn is_empty(&self) -> (b: bool)
        ensures
            b == (self@ == Map::<Seq<char>, u32>::empty()),
    {
        let b = self.entries.len() == 0;
        proof {
            if !b {
                lemma_entries_dom(self.entries@, self.entries@[0].0@);
                assert(self@.dom().contains(self.entries@[0].0@));
            }
        }
        b
    }

    /// Index of the entry for `key`, if any.
    fn find(&self, key: &String) -> (r: Option<usize>)
        ensures
            r matches Some(i) ==> i < self.entries@.len() && self.entries@[i as int].0@ == key@,
            r is None ==> !self@.dom().contains(key@),
    {
        let mut i: usize = 0;
        while i < self.entries.len()
            invariant
                i <= self.entries@.len(),
                forall|j: int| 0 <= j < i ==> (#[trigger] self.entries@[j]).0@ != key@,
            decreases self.entries@.len() - i,
        {
            if self.entries[i].0 == *key {
                return Some(i);
            }
            i = i + 1;
        }
        proof {
            lemma_entries_dom(self.entries@, key@);
        }
        None
    }

    /// The counter for `key`, if it has one.
    pub fn get(&self, key: &str) -> (r: Option<&u32>)
        ensures
            r == (if self@.dom().contains(key@) {
                Some(&self@[key@])
            } else {
                None
            }),
    {
        proof {
            use_type_invariant(self);
        }
        let k = String::from_str(key);
        match self.find(&k) {
            Some(i) => {
                proof {
                    lemma_entries_value(self.entries@, i as int);
                }
                Some(&self.entries[i].1)
            },
            None => None,
        }
    }

    /// Sets the counter for `key` to `value`, returning the previous counter.
    pub fn insert(&mut self, key: String, value: u32) -> (prev: Option<u32>)
        ensures
            final(self)@ == old(self)@.insert(key@, value),
            prev == (if old(self)@.dom().contains(key@) {
                Some(old(self)@[key@])
            } else {
                None
            }),
    {
        proof {
            use_type_invariant(&*self);
        }
        match self.find(&key) {
            Some(i) => {
                let old_value = self.entries[i].1;
                proof {
                    lemma_entries_value(self.entries@, i as int);
                    lemma_entries_update(self.entries@, i as int, value);
                }
                let k = self.entries[i].0.clone();
                let ghost e = self.entries@;
                let mut entries: Vec<(String, u32)> = Vec::new();
                std::mem::swap(&mut entries, &mut self.entries);
                entries.set(i, (k, value));
                proof {
                    assert(entries@ =~= e.update(i as int, (e[i as int].0, value)));
                }
                self.entries = entries;
                Some(old_value)
            },
            None => {
                let ghost e = self.entries@;
                proof {
                    lemma_entries_dom(e, key@);
                }
                let mut entries: Vec<(String, u32)> = Vec::new();
                std::mem::swap(&mut entries, &mut self.entries);
                entries.push((key, value));
                proof {
                    assert(entries@.drop_last() =~= e);
                }
                self.entries = entries;
                None
            },
        }
    }

    /// Every goal id with its counter, each id once, in no promised order.
    pub fn to_vec(&self) -> (v: Vec<(String, u32)>)
        ensures
            keys_unique(v@),
            entries_map(v@) == self@,
    {
        let c = self.clone();
        proof {
            use_type_invariant(&c);
        }
        c.entries
    }

    /// Removes every counter.
    pub fn clear(&mut self)
        ensures
            final(self)@ == Map::<Seq<char>, u32>::empty(),
    {
        self.entries = Vec::new();
    }
}

} // verus!
