//! A small map from text keys to values, kept in insertion order.
use vstd::prelude::*;
use vstd::string::StringExecFns;

verus! {

pub open spec fn keys_distinct<V>(e: Seq<(String, V)>) -> bool {
    forall|i: int, j: int| 0 <= i < j < e.len() ==> (#[trigger] e[i]).0@ != (#[trigger] e[j]).0@
}

/// The map that a list of entries stands for: each entry inserted in turn, a
/// later one replacing an earlier one of the same key.
pub open spec fn entries_map<V>(e: Seq<(String, V)>) -> Map<Seq<char>, V>
    decreases e.len(),
{
    if e.len() == 0 {
        Map::empty()
    } else {
        entries_map(e.drop_last()).insert(e.last().0@, e.last().1)
    }
}

pub proof fn lemma_entries_map_keys<V>(e: Seq<(String, V)>, k: Seq<char>)
    ensures
        entries_map(e).contains_key(k) <==> exists|i: int| 0 <= i < e.len() && (#[trigger] e[i]).0@ == k,
    decreases e.len(),
{
    if e.len() > 0 {
        lemma_entries_map_keys(e.drop_last(), k);
        if entries_map(e.drop_last()).contains_key(k) {
            let i = choose|i: int| 0 <= i < e.drop_last().len() && (#[trigger] e.drop_last()[i]).0@ == k;
            assert(e[i] == e.drop_last()[i]);
        }
        if exists|i: int| 0 <= i < e.len() && (#[trigger] e[i]).0@ == k {
            let i = choose|i: int| 0 <= i < e.len() && (#[trigger] e[i]).0@ == k;
            if i < e.len() - 1 {
                assert(e.drop_last()[i] == e[i]);
            }
        }
    }
}

pub proof fn lemma_entries_map_value<V>(e: Seq<(String, V)>, i: int)
    requires
        keys_distinct(e),
        0 <= i < e.len(),
    ensures
        entries_map(e).contains_key(e[i].0@),
        entries_map(e)[e[i].0@] == e[i].1,
    decreases e.len(),
{
    if i < e.len() - 1 {
        assert(e.drop_last()[i] == e[i]);
        assert(keys_distinct(e.drop_last())) by {
            assert forall|a: int, b: int| 0 <= a < b < e.drop_last().len() implies (
            #[trigger] e.drop_last()[a]).0@ != (#[trigger] e.drop_last()[b]).0@ by {
                assert(e.drop_last()[a] == e[a]);
                assert(e.drop_last()[b] == e[b]);
            }
        }
        lemma_entries_map_value(e.drop_last(), i);
        assert(e[i].0@ != e[e.len() - 1].0@);
    }
}

pub proof fn lemma_entries_map_update<V>(e: Seq<(String, V)>, j: int, key: String, value: V)
    requires
        keys_distinct(e),
        0 <= j < e.len(),
        e[j].0@ == key@,
    ensures
        keys_distinct(e.update(j, (key, value))),
        entries_map(e.update(j, (key, value))) == entries_map(e).insert(key@, value),
    decreases e.len(),
{
    let u = e.update(j, (key, value));
    assert forall|a: int, b: int| 0 <= a < b < u.len() implies (#[trigger] u[a]).0@ != (
    #[trigger] u[b]).0@ by {
        assert(e[a].0@ != e[b].0@);
    }
    if j == e.len() - 1 {
        assert(u.drop_last() =~= e.drop_last());
        assert(entries_map(u) =~= entries_map(e).insert(key@, value));
    } else {
        let d = e.drop_last();
        assert(u.drop_last() =~= d.update(j, (key, value)));
        assert(keys_distinct(d)) by {
            assert forall|a: int, b: int| 0 <= a < b < d.len() implies (#[trigger] d[a]).0@ != (
            #[trigger] d[b]).0@ by {
                assert(d[a] == e[a]);
                assert(d[b] == e[b]);
            }
        }
        assert(d[j] == e[j]);
        lemma_entries_map_update(d, j, key, value);
        assert(e.last().0@ != key@) by {
            assert(e[j].0@ != e[e.len() - 1].0@);
        }
        assert(u.last() == e.last());
        assert(entries_map(u) =~= entries_map(e).insert(key@, value));
    }
}

/// A map from text keys to values. Keys are distinct; entries keep the order
/// in which their keys were first inserted.
#[derive(Debug)]
pub struct Table<V> {
    entries: Vec<(String, V)>,
}

impl<V> View for Table<V> {
    type V = Map<Seq<char>, V>;

    closed spec fn view(&self) -> Map<Seq<char>, V> {
        entries_map(self.entries@)
    }
}

impl<V> Table<V> {
    #[verifier::type_invariant]
    closed spec fn distinct(self) -> bool {
        keys_distinct(self.entries@)
    }

    pub fn new() -> (r: Self)
        ensures
            r@ == Map::<Seq<char>, V>::empty(),
    {
        Table { entries: Vec::new() }
    }

    /// The entries, in order: distinct keys, standing for the table's map.
    pub fn entries(&self) -> (r: &Vec<(String, V)>)
        ensures
            keys_distinct(r@),
            entries_map(r@) == self@,
    {
        proof {
            use_type_invariant(self);
        }
        &self.entries
    }

    pub fn len(&self) -> (r: usize)
        ensures
            r == self@.dom().len(),
    {
        proof {
            use_type_invariant(self);
            lemma_entries_map_len(self.entries@);
        }
        self.entries.len()
    }

    fn position(&self, key: &String) -> (r: Option<usize>)
        ensures
            match r {
                Some(i) => i < self.entries@.len() && self.entries@[i as int].0@ == key@,
                None => forall|i: int|
                    0 <= i < self.entries@.len() ==> (#[trigger] self.entries@[i]).0@ != key@,
            },
    {
        let mut i: usize = 0;
        while i < self.entries.len()
            invariant
                0 <= i <= self.entries@.len(),
                forall|j: int| 0 <= j < i ==> (#[trigger] self.entries@[j]).0@ != key@,
            decreases self.entries@.len() - i,
        {
            if self.entries[i].0 == *key {
                return Some(i);
            }
            i = i + 1;
        }
        None
    }

    /// The value of `key`, if the table holds it.
    pub fn get(&self, key: &str) -> (r: Option<&V>)
        ensures
            r == (if self@.contains_key(key@) {
                Some(&self@[key@])
            } else {
                None
            }),
    {
        proof {
            use_type_invariant(self);
            lemma_entries_map_keys(self.entries@, key@);
        }
        let k = String::from_str(key);
        match self.position(&k) {
            Some(i) => {
                proof {
                    lemma_entries_map_value(self.entries@, i as int);
                }
                Some(&self.entries[i].1)
            },
            None => None,
        }
    }

    pub fn contains_key(&self, key: &str) -> (r: bool)
        ensures
            r == self@.contains_key(key@),
    {
        self.get(key).is_some()
    }

    /// Sets the value of `key`, replacing the one it had.
    pub fn insert(&mut self, key: String, value: V)
        ensures
            final(self)@ == old(self)@.insert(key@, value),
    {
        proof {
            use_type_invariant(&*self);
        }
        match self.position(&key) {
            Some(i) => {
                proof {
                    lemma_entries_map_update(self.entries@, i as int, key, value);
                }
                let mut updated: Vec<(String, V)> = Vec::new();
                std::mem::swap(&mut self.entries, &mut updated);
                updated.set(i, (key, value));
                std::mem::swap(&mut self.entries, &mut updated);
            },
            None => {
                let ghost e = self.entries@;
                let mut grown: Vec<(String, V)> = Vec::new();
                std::mem::swap(&mut self.entries, &mut grown);
                grown.push((key, value));
                assert(grown@.drop_last() =~= e);
                assert forall|a: int, b: int| 0 <= a < b < grown@.len() implies (
                #[trigger] grown@[a]).0@ != (#[trigger] grown@[b]).0@ by {
                    if b < e.len() {
                        assert(e[a].0@ != e[b].0@);
                    }
                }
                std::mem::swap(&mut self.entries, &mut grown);
            },
        }
    }

    /// The keys, in order.
    pub fn keys(&self) -> (r: Vec<String>)
        ensures
            r@.len() == self@.dom().len(),
            forall|i: int, j: int| 0 <= i < j < r@.len() ==> (#[trigger] r@[i])@ != (#[trigger] r@[j])@,
            forall|k: Seq<char>|
                self@.contains_key(k) <==> exists|i: int| 0 <= i < r@.len() && (#[trigger] r@[i])@ == k,
    {
        proof {
            use_type_invariant(self);
            lemma_entries_map_len(self.entries@);
        }
        let mut r: Vec<String> = Vec::new();
        let mut i: usize = 0;
        while i < self.entries.len()
            invariant
                0 <= i <= self.entries@.len(),
                r@.len() == i,
                forall|j: int| 0 <= j < i ==> (#[trigger] r@[j])@ == self.entries@[j].0@,
            decreases self.entries@.len() - i,
        {
            r.push(self.entries[i].0.clone());
            i = i + 1;
        }
        assert forall|a: int, b: int| 0 <= a < b < r@.len() implies (#[trigger] r@[a])@ != (
        #[trigger] r@[b])@ by {
            assert(self.entries@[a].0@ != self.entries@[b].0@);
        }
        assert forall|k: Seq<char>| self@.contains_key(k) <==> exists|i: int|
            0 <= i < r@.len() && (#[trigger] r@[i])@ == k by {
            lemma_entries_map_keys(self.entries@, k);
            if self@.contains_key(k) {
                let i = choose|i: int| 0 <= i < self.entries@.len() && (#[trigger] self.entries@[i]).0@ == k;
                assert(r@[i]@ == k);
            }
        }
        r
    }
}

pub proof fn lemma_entries_map_len<V>(e: Seq<(String, V)>)
    requires
        keys_distinct(e),
    ensures
        entries_map(e).dom().finite(),
        entries_map(e).dom().len() == e.len(),
    decreases e.len(),
{
    if e.len() > 0 {
        let d = e.drop_last();
        assert(keys_distinct(d)) by {
            assert forall|a: int, b: int| 0 <= a < b < d.len() implies (#[trigger] d[a]).0@ != (
            #[trigger] d[b]).0@ by {
                assert(d[a] == e[a]);
                assert(d[b] == e[b]);
            }
        }
        lemma_entries_map_len(d);
        lemma_entries_map_keys(d, e.last().0@);
        if entries_map(d).contains_key(e.last().0@) {
            let i = choose|i: int| 0 <= i < d.len() && (#[trigger] d[i]).0@ == e.last().0@;
            assert(d[i] == e[i]);
            assert(e[i].0@ != e[e.len() - 1].0@);
        }
    }
}

} // verus!
