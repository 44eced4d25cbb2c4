//! `StrMap`: a map keyed by strings that keeps its entries in insertion
//! order and never holds a key twice. It stands where a `HashMap<String, _>`
//! would: lookups and inserts behave as a map's, and walking it gives the
//! entries in a fixed order.

use vstd::prelude::*;

verus! {

broadcast use vstd::string::group_string_axioms;

/// The entries of an association list hold pairwise distinct keys.
pub open spec fn keys_unique<V>(m: Seq<(Seq<char>, V)>) -> bool {
    forall|i: int, j: int| 0 <= i < j < m.len() ==> m[i].0 != m[j].0
}

/// The index of the entry with key `k`, or -1 when there is none
/// (the last such entry, when keys repeat).
pub open spec fn assoc_index<V>(m: Seq<(Seq<char>, V)>, k: Seq<char>) -> int
    decreases m.len(),
{
    if m.len() == 0 {
        -1
    } else if m.last().0 == k {
        m.len() - 1
    } else {
        assoc_index(m.drop_last(), k)
    }
}

/// The value stored under `k`.
pub open spec fn assoc_get<V>(m: Seq<(Seq<char>, V)>, k: Seq<char>) -> Option<V> {
    let i = assoc_index(m, k);
    if i >= 0 {
        Some(m[i].1)
    } else {
        None
    }
}

/// `m` with `k` mapped to `v`: the value of an existing entry is replaced in
/// place, otherwise the entry is appended.
pub open spec fn assoc_insert<V>(m: Seq<(Seq<char>, V)>, k: Seq<char>, v: V) -> Seq<
    (Seq<char>, V),
> {
    let i = assoc_index(m, k);
    if i >= 0 {
        m.update(i, (k, v))
    } else {
        m.push((k, v))
    }
}

/// Inserting the pairs of `pairs` one after another into `m`.
pub open spec fn assoc_insert_all<V>(m: Seq<(Seq<char>, V)>, pairs: Seq<(Seq<char>, V)>) -> Seq<
    (Seq<char>, V),
>
    decreases pairs.len(),
{
    if pairs.len() == 0 {
        m
    } else {
        assoc_insert(assoc_insert_all(m, pairs.drop_last()), pairs.last().0, pairs.last().1)
    }
}

/// What `assoc_index` finds.
pub proof fn lemma_assoc_index<V>(m: Seq<(Seq<char>, V)>, k: Seq<char>)
    ensures
        -1 <= assoc_index(m, k) < m.len(),
        assoc_index(m, k) >= 0 ==> m[assoc_index(m, k)].0 == k,
        assoc_index(m, k) == -1 <==> forall|j: int| 0 <= j < m.len() ==> m[j].0 != k,
        forall|j: int| assoc_index(m, k) < j < m.len() ==> m[j].0 != k,
    decreases m.len(),
{
    if m.len() > 0 && m.last().0 != k {
        lemma_assoc_index(m.drop_last(), k);
        assert forall|j: int| 0 <= j < m.len() - 1 implies m[j] == m.drop_last()[j] by {}
    }
}

/// With distinct keys, an entry's key finds that entry.
pub proof fn lemma_assoc_index_of_entry<V>(m: Seq<(Seq<char>, V)>, j: int)
    requires
        keys_unique(m),
        0 <= j < m.len(),
    ensures
        assoc_index(m, m[j].0) == j,
{
    lemma_assoc_index(m, m[j].0);
}

/// Inserting keeps keys distinct.
pub proof fn lemma_assoc_insert_unique<V>(m: Seq<(Seq<char>, V)>, k: Seq<char>, v: V)
    requires
        keys_unique(m),
    ensures
        keys_unique(assoc_insert(m, k, v)),
{
    lemma_assoc_index(m, k);
}

/// After an insert, `k` finds `v` and every other key finds what it found before.
pub proof fn law_insert_then_get<V>(m: Seq<(Seq<char>, V)>, k: Seq<char>, v: V, k2: Seq<char>)
    requires
        keys_unique(m),
    ensures
        assoc_get(assoc_insert(m, k, v), k2) == (if k2 == k {
            Some(v)
        } else {
            assoc_get(m, k2)
        }),
{
    let n = assoc_insert(m, k, v);
    lemma_assoc_index(m, k);
    lemma_assoc_index(m, k2);
    lemma_assoc_insert_unique(m, k, v);
    lemma_assoc_index(n, k2);
    if k2 == k {
        let i = assoc_index(m, k);
        if i >= 0 {
            lemma_assoc_index_of_entry(n, i);
        } else {
            lemma_assoc_index_of_entry(n, m.len() as int);
        }
    } else {
        let i2 = assoc_index(m, k2);
        if i2 >= 0 {
            lemma_assoc_index_of_entry(n, i2);
        } else {
            assert forall|j: int| 0 <= j < n.len() implies n[j].0 != k2 by {}
        }
    }
}

/// Two association lists with the same keys in the same order find a key
/// at the same index.
pub proof fn lemma_assoc_index_same_keys<A, B>(
    m1: Seq<(Seq<char>, A)>,
    m2: Seq<(Seq<char>, B)>,
    k: Seq<char>,
)
    requires
        m1.len() == m2.len(),
        forall|i: int| 0 <= i < m1.len() ==> m1[i].0 == m2[i].0,
    ensures
        assoc_index(m1, k) == assoc_index(m2, k),
    decreases m1.len(),
{
    if m1.len() > 0 {
        lemma_assoc_index_same_keys(m1.drop_last(), m2.drop_last(), k);
    }
}

/// A map keyed by strings, in insertion order, with no key twice.
#[derive(Debug)]
pub struct StrMap<V> {
    entries: Vec<(String, V)>,
}

impl<V> View for StrMap<V> {
    type V = Seq<(Seq<char>, V)>;

    closed spec fn view(&self) -> Seq<(Seq<char>, V)> {
        self.entries@.map_values(|e: (String, V)| (e.0@, e.1))
    }
}

impl<V> StrMap<V> {
    #[verifier::type_invariant]
    closed spec fn inv(self) -> bool {
        keys_unique(self@)
    }

    /// An empty map.
    pub fn new() -> (m: Self)
        ensures
            m@ == Seq::<(Seq<char>, V)>::empty(),
    {
        let m = StrMap { entries: Vec::new() };
        assert(m@ =~= Seq::<(Seq<char>, V)>::empty());
        m
    }

    /// The number of entries.
    pub fn len(&self) -> (n: usize)
        ensures
            n == self@.len(),
    {
        self.entries.len()
    }

    /// Whether the map has no entry.
    pub fn is_empty(&self) -> (b: bool)
        ensures
            b == (self@.len() == 0),
    {
        self.entries.len() == 0
    }

    /// The key of the `i`-th entry.
    pub fn key_at(&self, i: usize) -> (k: &String)
        requires
            i < self@.len(),
        ensures
            k@ == self@[i as int].0,
    {
        &self.entries[i].0
    }

    /// The value of the `i`-th entry.
    pub fn value_at(&self, i: usize) -> (v: &V)
        requires
            i < self@.len(),
        ensures
            *v == self@[i as int].1,
    {
        &self.entries[i].1
    }

    /// The position of the entry with key `key`.
    pub fn index_of(&self, key: &str) -> (r: Option<usize>)
        ensures
            r matches Some(i) ==> assoc_index(self@, key@) == i && i < self@.len(),
            r is None ==> assoc_index(self@, key@) == -1,
    {
        proof {
            use_type_invariant(self);
            lemma_assoc_index(self@, key@);
        }
        let k = key.to_string();
        let mut i: usize = 0;
        while i < self.entries.len()
            invariant
                i <= self@.len(),
                self@.len() == self.entries@.len(),
                k@ == key@,
                keys_unique(self@),
                forall|j: int| 0 <= j < i ==> self@[j].0 != key@,
            decreases self.entries.len() - i,
        {
            if self.entries[i].0 == k {
                proof {
                    lemma_assoc_index_of_entry(self@, i as int);
                }
                return Some(i);
            }
            i += 1;
        }
        None
    }

    /// The value stored under `key`.
    pub fn get(&self, key: &str) -> (r: Option<&V>)
        ensures
            r matches Some(v) ==> assoc_get(self@, key@) == Some(*v),
            r is None ==> assoc_get(self@, key@) is None,
    {
        match self.index_of(key) {
            Some(i) => Some(&self.entries[i].1),
            None => None,
        }
    }

    /// Whether some entry has key `key`.
    pub fn contains_key(&self, key: &str) -> (b: bool)
        ensures
            b == (assoc_get(self@, key@) is Some),
    {
        self.index_of(key).is_some()
    }

    /// Maps `key` to `value`, replacing the value of an existing entry in place.
    pub fn insert(&mut self, key: String, value: V)
        ensures
            final(self)@ == assoc_insert(old(self)@, key@, value),
    {
        proof {
            use_type_invariant(&*self);
            lemma_assoc_index(self@, key@);
            lemma_assoc_insert_unique(self@, key@, value);
        }
        let idx = self.index_of(key.as_str());
        let ghost k = key@;
        let ghost before = self@;
        match idx {
            Some(i) => {
                let mut entries = Vec::new();
                std::mem::swap(&mut entries, &mut self.entries);
                entries.set(i, (key, value));
                assert(entries@.map_values(|e: (String, V)| (e.0@, e.1)) =~= assoc_insert(
                    before,
                    k,
                    value,
                ));
                self.entries = entries;
            },
            None => {
                let mut entries = Vec::new();
                std::mem::swap(&mut entries, &mut self.entries);
                entries.push((key, value));
                assert(entries@.map_values(|e: (String, V)| (e.0@, e.1)) =~= assoc_insert(
                    before,
                    k,
                    value,
                ));
                self.entries = entries;
            },
        }
    }

    /// Replaces the value of the `i`-th entry, giving back the old one.
    pub fn replace_value(&mut self, i: usize, value: V) -> (previous: V)
        requires
            i < old(self)@.len(),
        ensures
            final(self)@ == old(self)@.update(i as int, (old(self)@[i as int].0, value)),
            previous == old(self)@[i as int].1,
    {
        proof {
            use_type_invariant(&*self);
        }
        let ghost before = self@;
        let mut entries = Vec::new();
        std::mem::swap(&mut entries, &mut self.entries);
        let (k, previous) = entries.remove(i);
        entries.insert(i, (k, value));
        assert(entries@.map_values(|e: (String, V)| (e.0@, e.1)) =~= before.update(
            i as int,
            (before[i as int].0, value),
        ));
        self.entries = entries;
        previous
    }

    /// A map holding `pairs`, inserted in order (a later pair with a key that
    /// came before replaces its value).
    pub fn from_pairs(pairs: Vec<(String, V)>) -> (m: Self)
        ensures
            m@ == assoc_insert_all(Seq::empty(), pairs@.map_values(|e: (String, V)| (e.0@, e.1))),
    {
        let mut m = StrMap::new();
        m.extend_pairs(pairs);
        m
    }

    /// Inserts `pairs` in order.
    pub fn extend_pairs(&mut self, pairs: Vec<(String, V)>)
        ensures
            final(self)@ == assoc_insert_all(
                old(self)@,
                pairs@.map_values(|e: (String, V)| (e.0@, e.1)),
            ),
    {
        let ghost all = pairs@.map_values(|e: (String, V)| (e.0@, e.1));
        assert(all.len() == pairs.len());
        let mut rest = pairs;
        let mut done: usize = 0;
        while rest.len() > 0
            invariant
                done + rest@.len() == all.len(),
                all.len() <= usize::MAX,
                rest@.map_values(|e: (String, V)| (e.0@, e.1)) == all.subrange(
                    done as int,
                    all.len() as int,
                ),
                self@ == assoc_insert_all(old(self)@, all.subrange(0, done as int)),
            decreases rest.len(),
        {
            let ghost old_rest = rest@;
            assert(old_rest.map_values(|e: (String, V)| (e.0@, e.1))[0] == all[done as int]);
            let (k, v) = rest.remove(0);
            assert(old_rest[0] == (k, v));
            assert(all[done as int] == (k@, v));
            self.insert(k, v);
            done += 1;
            assert(all.subrange(0, done as int).drop_last() =~= all.subrange(0, done - 1));
            assert forall|j: int| 0 <= j < rest@.len() implies rest@[j] == old_rest[j + 1] by {}
            assert forall|j: int| 0 <= j < rest@.len() implies (#[trigger] rest@[j]).0@ == all[done
                + j].0 && rest@[j].1 == all[done + j].1 by {
                assert(old_rest.map_values(|e: (String, V)| (e.0@, e.1))[j + 1] == all[done + j]);
            }
            assert(rest@.map_values(|e: (String, V)| (e.0@, e.1)) =~= all.subrange(
                done as int,
                all.len() as int,
            ));
        }
        assert(all.subrange(0, all.len() as int) =~= all);
    }

    /// Inserts every entry of `other`, in its order.
    pub fn extend(&mut self, other: StrMap<V>)
        ensures
            final(self)@ == assoc_insert_all(old(self)@, other@),
    {
        let StrMap { entries } = other;
        self.extend_pairs(entries);
    }

    /// The entries, in order.
    pub fn into_pairs(self) -> (pairs: Vec<(String, V)>)
        ensures
            pairs@.map_values(|e: (String, V)| (e.0@, e.1)) == self@,
    {
        let StrMap { entries } = self;
        entries
    }
}

} // verus!
