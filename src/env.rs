//! Finite maps from names, kept as lists of bindings.

use vstd::prelude::*;

verus! {

/// The map that a list of bindings stands for: a later binding of a name
/// overrides an earlier one.
pub open spec fn table_map<T: View>(s: Seq<(String, T)>) -> Map<Seq<char>, T::V>
    decreases s.len(),
{
    if s.len() == 0 {
        Map::empty()
    } else {
        table_map(s.drop_last()).insert(s.last().0@, s.last().1@)
    }
}

pub open spec fn keys_unique<T>(s: Seq<(String, T)>) -> bool {
    forall|i: int, j: int|
        0 <= i < s.len() && 0 <= j < s.len() && i != j ==> s[i].0@ != s[j].0@
}

proof fn lemma_table_lookup<T: View>(s: Seq<(String, T)>, k: Seq<char>)
    requires
        keys_unique(s),
    ensures
        table_map(s).contains_key(k) <==> exists|i: int| 0 <= i < s.len() && s[i].0@ == k,
        forall|i: int| 0 <= i < s.len() && s[i].0@ == k ==> table_map(s)[k] == s[i].1@,
    decreases s.len(),
{
    if s.len() > 0 {
        let t = s.drop_last();
        assert(keys_unique(t));
        lemma_table_lookup(t, k);
        if table_map(s).contains_key(k) {
            if s.last().0@ == k {
                assert(s[s.len() - 1].0@ == k);
            } else {
                let i = choose|i: int| 0 <= i < t.len() && t[i].0@ == k;
                assert(s[i] == t[i]);
            }
        }
        if exists|i: int| 0 <= i < s.len() && s[i].0@ == k {
            let i = choose|i: int| 0 <= i < s.len() && s[i].0@ == k;
            if i < s.len() - 1 {
                assert(s[i] == t[i]);
            }
        }
        assert forall|i: int| 0 <= i < s.len() && s[i].0@ == k implies table_map(s)[k] == s[i].1@ by {
            if i < s.len() - 1 {
                assert(s[i] == t[i]);
                assert(s.last().0@ != k);
            }
        }
    }
}

proof fn lemma_table_remove<T: View>(s: Seq<(String, T)>, i: int)
    requires
        keys_unique(s),
        0 <= i < s.len(),
    ensures
        keys_unique(s.remove(i)),
        table_map(s.remove(i)) == table_map(s).remove(s[i].0@),
    decreases s.len(),
{
    let k = s[i].0@;
    let r = s.remove(i);
    assert forall|a: int, b: int|
        0 <= a < r.len() && 0 <= b < r.len() && a != b implies r[a].0@ != r[b].0@ by {
        let a2 = if a < i { a } else { a + 1 };
        let b2 = if b < i { b } else { b + 1 };
        assert(r[a] == s[a2]);
        assert(r[b] == s[b2]);
    }
    let t = s.drop_last();
    assert(keys_unique(t));
    if i == s.len() - 1 {
        assert(r =~= t);
        lemma_table_lookup(t, k);
        assert forall|j: int| 0 <= j < t.len() implies t[j].0@ != k by {
            assert(t[j] == s[j]);
        }
        assert(table_map(r) =~= table_map(s).remove(k));
    } else {
        lemma_table_remove(t, i);
        assert(r.drop_last() =~= t.remove(i));
        assert(r.last() == s.last());
        assert(s.last().0@ != k);
        assert(table_map(r) =~= table_map(s).remove(k));
    }
}

/// A finite map from names to values, kept as a list of bindings with
/// distinct names.
pub struct Table<T> {
    entries: Vec<(String, T)>,
}

impl<T: View> View for Table<T> {
    type V = Map<Seq<char>, T::V>;

    closed spec fn view(&self) -> Map<Seq<char>, T::V> {
        table_map(self.entries@)
    }
}

impl<T: View> Table<T> {
    pub closed spec fn wf(&self) -> bool {
        keys_unique(self.entries@)
    }

    pub fn new() -> (r: Table<T>)
        ensures
            r.wf(),
            r@ == Map::<Seq<char>, T::V>::empty(),
    {
        Table { entries: Vec::new() }
    }

    fn find(&self, k: &String) -> (r: Option<usize>)
        ensures
            match r {
                Some(i) => i < self.entries@.len() && self.entries@[i as int].0@ == k@,
                None => forall|j: int|
                    0 <= j < self.entries@.len() ==> #[trigger] self.entries@[j].0@ != k@,
            },
    {
        let mut i: usize = 0;
        while i < self.entries.len()
            invariant
                i <= self.entries@.len(),
                forall|j: int| 0 <= j < i ==> #[trigger] self.entries@[j].0@ != k@,
            decreases self.entries@.len() - i,
        {
            if self.entries[i].0 == *k {
                return Some(i);
            }
            i = i + 1;
        }
        None
    }

    pub fn get(&self, k: &String) -> (r: Option<&T>)
        requires
            self.wf(),
        ensures
            match r {
                Some(v) => self@.contains_key(k@) && self@[k@] == v@,
                None => !self@.contains_key(k@),
            },
    {
        proof {
            lemma_table_lookup(self.entries@, k@);
        }
        match self.find(k) {
            Some(i) => Some(&self.entries[i].1),
            None => None,
        }
    }

    pub fn remove(&mut self, k: &String)
        requires
            old(self).wf(),
        ensures
            final(self).wf(),
            final(self)@ == old(self)@.remove(k@),
    {
        proof {
            lemma_table_lookup(self.entries@, k@);
        }
        match self.find(k) {
            Some(i) => {
                proof {
                    lemma_table_remove(self.entries@, i as int);
                }
                self.entries.remove(i);
            },
            None => {
                assert(self@.remove(k@) =~= self@);
            },
        }
    }

    pub fn insert(&mut self, k: String, v: T)
        requires
            old(self).wf(),
        ensures
            final(self).wf(),
            final(self)@ == old(self)@.insert(k@, v@),
    {
        self.remove(&k);
        proof {
            lemma_table_lookup(self.entries@, k@);
        }
        let ghost before = self.entries@;
        self.entries.push((k, v));
        proof {
            let s = self.entries@;
            assert(s.drop_last() =~= before);
            assert forall|a: int, b: int|
                0 <= a < s.len() && 0 <= b < s.len() && a != b implies s[a].0@ != s[b].0@ by {
                if a < before.len() && b < before.len() {
                    assert(s[a] == before[a]);
                    assert(s[b] == before[b]);
                } else if a < before.len() {
                    assert(s[a] == before[a]);
                } else {
                    assert(s[b] == before[b]);
                }
            }
            assert(table_map(s) =~= old(self)@.insert(k@, v@));
        }
    }
}

} // verus!
