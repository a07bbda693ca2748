//! An insertion-ordered association list keyed by text labels.
//!
//! The map is viewed as a `Map<Seq<char>, V>`. Its keys are kept in the order
//! in which they were first inserted, which lets callers walk the entries by
//! index.
use vstd::prelude::*;

verus! {

/// The map that pairs `keys[i]` with `vals[i]`.
pub open spec fn assoc<V>(keys: Seq<Seq<char>>, vals: Seq<V>) -> Map<Seq<char>, V> {
    Map::new(|k: Seq<char>| keys.contains(k), |k: Seq<char>| vals[keys.index_of(k)])
}

/// In a list of distinct keys, the key at position `i` is found at position `i`.
pub proof fn lemma_assoc_at<V>(keys: Seq<Seq<char>>, vals: Seq<V>, i: int)
    requires
        keys.no_duplicates(),
        0 <= i < keys.len(),
    ensures
        keys.contains(keys[i]),
        keys.index_of(keys[i]) == i,
        assoc(keys, vals).contains_key(keys[i]),
        assoc(keys, vals)[keys[i]] == vals[i],
{
    assert(keys.contains(keys[i]));
    let j = keys.index_of(keys[i]);
    assert(0 <= j < keys.len() && keys[j] == keys[i]);
}

/// Appending a fresh key inserts it into the map.
pub proof fn lemma_assoc_push<V>(keys: Seq<Seq<char>>, vals: Seq<V>, k: Seq<char>, v: V)
    requires
        keys.no_duplicates(),
        keys.len() == vals.len(),
        !keys.contains(k),
    ensures
        keys.push(k).no_duplicates(),
        assoc(keys.push(k), vals.push(v)) =~= assoc(keys, vals).insert(k, v),
{
    let keys2 = keys.push(k);
    let vals2 = vals.push(v);
    assert forall|i: int, j: int| 0 <= i < keys2.len() && 0 <= j < keys2.len() && i != j implies keys2[i]
        != keys2[j] by {
        if i < keys.len() {
            assert(keys.contains(keys[i]));
        }
        if j < keys.len() {
            assert(keys.contains(keys[j]));
        }
    }
    assert forall|l: Seq<char>| keys2.contains(l) <==> (l == k || keys.contains(l)) by {
        if keys2.contains(l) {
            let i = keys2.index_of(l);
            if i < keys.len() {
                assert(keys[i] == l);
            }
        }
        if l == k {
            assert(keys2[keys.len() as int] == k);
        }
        if keys.contains(l) {
            let i = keys.index_of(l);
            assert(keys2[i] == l);
        }
    }
    assert forall|l: Seq<char>| keys2.contains(l) implies #[trigger] assoc(keys2, vals2)[l] == assoc(
        keys,
        vals,
    ).insert(k, v)[l] by {
        let i = keys2.index_of(l);
        lemma_assoc_at(keys2, vals2, i);
        if i < keys.len() {
            lemma_assoc_at(keys, vals, i);
        }
    }
}

/// Replacing the value at position `i` overwrites the entry of `keys[i]`.
pub proof fn lemma_assoc_update<V>(keys: Seq<Seq<char>>, vals: Seq<V>, i: int, v: V)
    requires
        keys.no_duplicates(),
        keys.len() == vals.len(),
        0 <= i < keys.len(),
    ensures
        assoc(keys, vals.update(i, v)) =~= assoc(keys, vals).insert(keys[i], v),
{
    let vals2 = vals.update(i, v);
    assert(keys.contains(keys[i]));
    assert forall|l: Seq<char>| keys.contains(l) implies #[trigger] assoc(keys, vals2)[l] == assoc(
        keys,
        vals,
    ).insert(keys[i], v)[l] by {
        let j = keys.index_of(l);
        lemma_assoc_at(keys, vals, j);
        lemma_assoc_at(keys, vals2, j);
    }
}

/// A map from text labels to values that remembers insertion order.
#[derive(Debug)]
pub struct LabelMap<V> {
    labels: Vec<String>,
    values: Vec<V>,
}

impl<V> LabelMap<V> {
    /// The labels, in insertion order.
    pub closed spec fn keys(&self) -> Seq<Seq<char>> {
        Seq::new(self.labels@.len(), |i: int| self.labels@[i]@)
    }

    /// The values, in the order of their labels.
    pub closed spec fn vals(&self) -> Seq<V> {
        self.values@
    }

    /// Every label has one value and no label occurs twice.
    pub open spec fn wf(&self) -> bool {
        &&& self.keys().len() == self.vals().len()
        &&& self.keys().no_duplicates()
    }

    /// The map from each label to its value.
    pub open spec fn view(&self) -> Map<Seq<char>, V> {
        assoc(self.keys(), self.vals())
    }

    /// An empty map.
    pub fn new() -> (m: Self)
        ensures
            m.wf(),
            m.keys() == Seq::<Seq<char>>::empty(),
            m.vals() == Seq::<V>::empty(),
            m@ == Map::<Seq<char>, V>::empty(),
    {
        let m = LabelMap { labels: Vec::new(), values: Vec::new() };
        assert(m.keys() =~= Seq::<Seq<char>>::empty());
        assert(m@ =~= Map::<Seq<char>, V>::empty());
        m
    }

    /// The number of labels.
    pub fn len(&self) -> (n: usize)
        requires
            self.wf(),
        ensures
            n == self.keys().len(),
            n == self.vals().len(),
    {
        self.labels.len()
    }

    /// Whether the map holds no label at all.
    pub fn is_empty(&self) -> (b: bool)
        requires
            self.wf(),
        ensures
            b == (self.keys().len() == 0),
            b == (self@ == Map::<Seq<char>, V>::empty()),
    {
        proof {
            if self.keys().len() == 0 {
                assert(self@ =~= Map::<Seq<char>, V>::empty());
            } else {
                lemma_assoc_at(self.keys(), self.vals(), 0);
            }
        }
        self.labels.len() == 0
    }

    /// The position of `label` among the keys, if it is one of them.
    pub fn position(&self, label: &str) -> (r: Option<usize>)
        requires
            self.wf(),
        ensures
            match r {
                Some(i) => i < self.keys().len() && self.keys()[i as int] == label@,
                None => !self.keys().contains(label@),
            },
            r is Some <==> self@.contains_key(label@),
    {
        let wanted = label.to_owned();
        let n = self.labels.len();
        let mut i: usize = 0;
        while i < n
            invariant
                n == self.labels@.len(),
                i <= n,
                wanted@ == label@,
                forall|j: int| 0 <= j < i ==> self.keys()[j] != label@,
            decreases n - i,
        {
            if self.labels[i] == wanted {
                return Some(i);
            }
            i += 1;
        }
        None
    }

    /// The value stored under `label`, if any.
    pub fn get(&self, label: &str) -> (r: Option<&V>)
        requires
            self.wf(),
        ensures
            match r {
                Some(v) => self@.contains_key(label@) && *v == self@[label@],
                None => !self@.contains_key(label@),
            },
    {
        match self.position(label) {
            Some(i) => {
                proof {
                    lemma_assoc_at(self.keys(), self.vals(), i as int);
                }
                Some(&self.values[i])
            },
            None => None,
        }
    }

    /// The label at position `i`.
    pub fn key_at(&self, i: usize) -> (k: &str)
        requires
            self.wf(),
            i < self.keys().len(),
        ensures
            k@ == self.keys()[i as int],
            self@.contains_key(k@),
    {
        proof {
            lemma_assoc_at(self.keys(), self.vals(), i as int);
        }
        self.labels[i].as_str()
    }

    /// The value at position `i`.
    pub fn value_at(&self, i: usize) -> (v: &V)
        requires
            self.wf(),
            i < self.keys().len(),
        ensures
            *v == self.vals()[i as int],
            *v == self@[self.keys()[i as int]],
    {
        proof {
            lemma_assoc_at(self.keys(), self.vals(), i as int);
        }
        &self.values[i]
    }

    /// Stores `value` under `label`, replacing what was there.
    ///
    /// A new label goes to the end of the key order; an existing one keeps
    /// its place.
    pub fn set(&mut self, label: &str, value: V)
        requires
            old(self).wf(),
        ensures
            final(self).wf(),
            final(self)@ == old(self)@.insert(label@, value),
            old(self).keys().contains(label@) ==> final(self).keys() == old(self).keys(),
            !old(self).keys().contains(label@) ==> final(self).keys() == old(self).keys().push(label@),
    {
        match self.position(label) {
            Some(i) => {
                proof {
                    lemma_assoc_update(self.keys(), self.vals(), i as int, value);
                }
                self.values[i] = value;
                assert(self.keys() =~= old(self).keys());
                assert(self.keys().contains(label@));
            },
            None => {
                proof {
                    lemma_assoc_push(self.keys(), self.vals(), label@, value);
                }
                self.labels.push(label.to_owned());
                self.values.push(value);
                assert(self.keys() =~= old(self).keys().push(label@));
            },
        }
    }

    /// Removes every entry.
    pub fn clear(&mut self)
        ensures
            final(self).wf(),
            final(self).keys() == Seq::<Seq<char>>::empty(),
            final(self)@ == Map::<Seq<char>, V>::empty(),
    {
        self.labels.clear();
        self.values.clear();
        assert(self.keys() =~= Seq::<Seq<char>>::empty());
        assert(self@ =~= Map::<Seq<char>, V>::empty());
    }
}

} // verus!
