//! Maps keyed by target keys, kept sorted by key as `BTreeMap` keeps them.
use vstd::prelude::*;

use crate::manifest::target::VdmManifestTargetUrl;

verus! {

/// Lexicographic order on character sequences, by code point (which is the
/// byte order of their UTF-8 encodings).
pub open spec fn seq_lt(a: Seq<char>, b: Seq<char>) -> bool
    decreases a.len(),
{
    if a.len() == 0 {
        b.len() > 0
    } else if b.len() == 0 {
        false
    } else if a[0] == b[0] {
        seq_lt(a.skip(1), b.skip(1))
    } else {
        (a[0] as int) < (b[0] as int)
    }
}

/// No sequence is below itself.
pub proof fn lemma_seq_lt_irreflexive(a: Seq<char>)
    ensures
        !seq_lt(a, a),
    decreases a.len(),
{
    if a.len() > 0 {
        lemma_seq_lt_irreflexive(a.skip(1));
    }
}

/// The order is transitive.
pub proof fn lemma_seq_lt_transitive(a: Seq<char>, b: Seq<char>, c: Seq<char>)
    requires
        seq_lt(a, b),
        seq_lt(b, c),
    ensures
        seq_lt(a, c),
    decreases a.len(),
{
    if a.len() > 0 && b.len() > 0 && c.len() > 0 {
        if a[0] == b[0] && b[0] == c[0] {
            lemma_seq_lt_transitive(a.skip(1), b.skip(1), c.skip(1));
        }
    }
}

/// Two different sequences are ordered one way or the other.
pub proof fn lemma_seq_lt_total(a: Seq<char>, b: Seq<char>)
    requires
        a != b,
    ensures
        seq_lt(a, b) || seq_lt(b, a),
    decreases a.len(),
{
    if a.len() > 0 && b.len() > 0 {
        if a[0] == b[0] {
            if a.skip(1) == b.skip(1) {
                assert(a =~= seq![a[0]] + a.skip(1));
                assert(b =~= seq![b[0]] + b.skip(1));
            }
            lemma_seq_lt_total(a.skip(1), b.skip(1));
        }
    } else if a.len() == 0 && b.len() == 0 {
        assert(a =~= b);
    }
}

/// The order is asymmetric.
pub proof fn lemma_seq_lt_asymmetric(a: Seq<char>, b: Seq<char>)
    requires
        seq_lt(a, b),
    ensures
        !seq_lt(b, a),
{
    if seq_lt(b, a) {
        lemma_seq_lt_transitive(a, b, a);
        lemma_seq_lt_irreflexive(a);
    }
}

/// How two keys compare.
#[derive(Debug)]
pub enum KeyOrder {
    Less,
    Equal,
    Greater,
}

/// Sequences that agree on their first `i` characters compare as their rests do.
pub proof fn lemma_seq_lt_skip(a: Seq<char>, b: Seq<char>, i: int)
    requires
        0 <= i <= a.len(),
        i <= b.len(),
        a.take(i) == b.take(i),
    ensures
        seq_lt(a, b) == seq_lt(a.skip(i), b.skip(i)),
    decreases i,
{
    if i > 0 {
        assert(a[0] == a.take(i)[0]);
        assert(b[0] == b.take(i)[0]);
        assert(a.skip(1).take(i - 1) =~= a.take(i).skip(1));
        assert(b.skip(1).take(i - 1) =~= b.take(i).skip(1));
        lemma_seq_lt_skip(a.skip(1), b.skip(1), i - 1);
        assert(a.skip(1).skip(i - 1) =~= a.skip(i));
        assert(b.skip(1).skip(i - 1) =~= b.skip(i));
    } else {
        assert(a.skip(0) =~= a);
        assert(b.skip(0) =~= b);
    }
}

/// Compares two character slices in the order of [`seq_lt`].
pub fn order_chars(a: &[char], b: &[char]) -> (r: KeyOrder)
    ensures
        match r {
            KeyOrder::Less => seq_lt(a@, b@),
            KeyOrder::Equal => a@ == b@,
            KeyOrder::Greater => seq_lt(b@, a@),
        },
{
    let mut i: usize = 0;
    while i < a.len() && i < b.len()
        invariant
            i <= a@.len(),
            i <= b@.len(),
            a@.take(i as int) == b@.take(i as int),
        decreases a@.len() - i,
    {
        let x = a[i];
        let y = b[i];
        if x != y {
            proof {
                lemma_seq_lt_skip(a@, b@, i as int);
                lemma_seq_lt_skip(b@, a@, i as int);
                assert(a@.skip(i as int)[0] == x && b@.skip(i as int)[0] == y);
            }
            if x < y {
                return KeyOrder::Less;
            } else {
                return KeyOrder::Greater;
            }
        }
        assert(a@.take(i + 1) =~= a@.take(i as int).push(x));
        assert(b@.take(i + 1) =~= b@.take(i as int).push(y));
        i += 1;
    }
    proof {
        lemma_seq_lt_skip(a@, b@, i as int);
        lemma_seq_lt_skip(b@, a@, i as int);
    }
    if a.len() == b.len() {
        assert(a@ =~= a@.take(i as int));
        assert(b@ =~= b@.take(i as int));
        KeyOrder::Equal
    } else if i == a.len() {
        KeyOrder::Less
    } else {
        KeyOrder::Greater
    }
}

/// Keys in strictly increasing order.
pub open spec fn sorted_keys(keys: Seq<Seq<char>>) -> bool {
    forall|i: int, j: int| 0 <= i < j < keys.len() ==> seq_lt(#[trigger] keys[i], #[trigger] keys[j])
}

/// A map from target keys to values, holding each key once, in key order.
#[derive(Debug)]
pub struct UrlMap<V> {
    entries: Vec<(VdmManifestTargetUrl, V)>,
}

/// The first index of `key` among `keys` at or after `start`.
pub open spec fn key_index_from(keys: Seq<Seq<char>>, key: Seq<char>, start: int) -> Option<int>
    decreases keys.len() - start,
{
    if start < 0 || start >= keys.len() {
        None
    } else if keys[start] == key {
        Some(start)
    } else {
        key_index_from(keys, key, start + 1)
    }
}

/// The index of `key` among `keys`, if it is there.
pub open spec fn key_index(keys: Seq<Seq<char>>, key: Seq<char>) -> Option<int> {
    key_index_from(keys, key, 0)
}

proof fn lemma_key_index_from_first(keys: Seq<Seq<char>>, key: Seq<char>, start: int, i: int)
    requires
        0 <= start <= i < keys.len(),
        keys[i] == key,
        forall|j: int| start <= j < i ==> keys[j] != key,
    ensures
        key_index_from(keys, key, start) == Some(i),
    decreases i - start,
{
    if start < i {
        lemma_key_index_from_first(keys, key, start + 1, i);
    }
}

proof fn lemma_key_index_from_none(keys: Seq<Seq<char>>, key: Seq<char>, start: int)
    requires
        0 <= start,
        forall|j: int| start <= j < keys.len() ==> keys[j] != key,
    ensures
        key_index_from(keys, key, start) is None,
    decreases keys.len() - start,
{
    if start < keys.len() {
        lemma_key_index_from_none(keys, key, start + 1);
    }
}

/// A found index lies inside the keys.
pub proof fn lemma_key_index_in_range(keys: Seq<Seq<char>>, key: Seq<char>)
    ensures
        key_index(keys, key) matches Some(i) ==> 0 <= i < keys.len() && keys[i] == key,
{
    lemma_key_index_from_in_range(keys, key, 0);
}

proof fn lemma_key_index_from_in_range(keys: Seq<Seq<char>>, key: Seq<char>, start: int)
    ensures
        key_index_from(keys, key, start) matches Some(i) ==> start <= i < keys.len() && keys[i] == key,
    decreases keys.len() - start,
{
    if 0 <= start < keys.len() && keys[start] != key {
        lemma_key_index_from_in_range(keys, key, start + 1);
    }
}

/// In sorted keys, a key present at `i` is found at `i`.
pub proof fn lemma_sorted_index(keys: Seq<Seq<char>>, key: Seq<char>, i: int)
    requires
        sorted_keys(keys),
        0 <= i < keys.len(),
        keys[i] == key,
    ensures
        key_index(keys, key) == Some(i),
{
    assert forall|j: int| 0 <= j < i implies keys[j] != key by {
        assert(seq_lt(keys[j], keys[i]));
        if keys[j] == key {
            lemma_seq_lt_irreflexive(key);
        }
    }
    lemma_key_index_from_first(keys, key, 0, i);
}

/// A key absent from `keys` is not found.
pub proof fn lemma_absent_index(keys: Seq<Seq<char>>, key: Seq<char>)
    requires
        forall|j: int| 0 <= j < keys.len() ==> keys[j] != key,
    ensures
        key_index(keys, key) is None,
{
    lemma_key_index_from_none(keys, key, 0);
}

impl<V> UrlMap<V> {
    /// The keys, in order.
    pub closed spec fn keys(&self) -> Seq<Seq<char>> {
        self.entries@.map_values(|e: (VdmManifestTargetUrl, V)| e.0@)
    }

    /// The values, in key order.
    pub closed spec fn values(&self) -> Seq<V> {
        self.entries@.map_values(|e: (VdmManifestTargetUrl, V)| e.1)
    }

    /// The map is well formed: its keys are strictly increasing.
    pub open spec fn wf(&self) -> bool {
        &&& sorted_keys(self.keys())
        &&& self.keys().len() == self.values().len()
    }

    /// The value at `key`.
    pub open spec fn lookup(&self, key: Seq<char>) -> Option<V> {
        match key_index(self.keys(), key) {
            Some(i) => Some(self.values()[i]),
            None => None,
        }
    }

    proof fn lemma_lengths(&self)
        ensures
            self.keys().len() == self.entries@.len(),
            self.values().len() == self.entries@.len(),
            forall|i: int| 0 <= i < self.entries@.len() ==> #[trigger] self.keys()[i] == self.entries@[i].0@
                && self.values()[i] == self.entries@[i].1,
    {
    }

    /// The keys, the values and the entries are equally many.
    pub proof fn lemma_same_length(&self)
        ensures
            self.keys().len() == self.values().len(),
    {
    }

    /// An empty map.
    pub fn new() -> (r: Self)
        ensures
            r.wf(),
            r.keys() == Seq::<Seq<char>>::empty(),
    {
        let r = UrlMap { entries: Vec::new() };
        assert(r.keys() =~= Seq::<Seq<char>>::empty());
        r
    }

    /// The number of entries.
    pub fn len(&self) -> (r: usize)
        ensures
            r == self.keys().len(),
    {
        self.entries.len()
    }

    /// The key and value at position `i` of the key order.
    pub fn entry(&self, i: usize) -> (r: (&VdmManifestTargetUrl, &V))
        requires
            i < self.keys().len(),
        ensures
            r.0@ == self.keys()[i as int],
            *r.1 == self.values()[i as int],
    {
        let e = &self.entries[i];
        (&e.0, &e.1)
    }

    /// The position of `key`, or where it would be inserted, and whether it is present.
    fn position(&self, key: &[char]) -> (r: (usize, bool))
        requires
            self.wf(),
        ensures
            r.0 <= self.keys().len(),
            r.1 ==> r.0 < self.keys().len() && self.keys()[r.0 as int] == key@,
            !r.1 ==> forall|i: int| 0 <= i < self.keys().len() ==> self.keys()[i] != key@,
            forall|i: int| 0 <= i < r.0 ==> seq_lt(#[trigger] self.keys()[i], key@),
            !r.1 ==> forall|i: int| r.0 <= i < self.keys().len() ==> seq_lt(key@, #[trigger] self.keys()[i]),
    {
        proof {
            self.lemma_lengths();
        }
        let mut i: usize = 0;
        while i < self.entries.len()
            invariant
                self.wf(),
                i <= self.keys().len(),
                self.keys().len() == self.entries@.len(),
                forall|j: int| 0 <= j < self.entries@.len() ==> #[trigger] self.keys()[j] == self.entries@[j].0@,
                forall|j: int| 0 <= j < i ==> seq_lt(#[trigger] self.keys()[j], key@),
            decreases self.entries@.len() - i,
        {
            let k = self.entries[i].0.to_chars();
            match order_chars(k.as_slice(), key) {
                KeyOrder::Less => {},
                KeyOrder::Equal => {
                    return (i, true);
                },
                KeyOrder::Greater => {
                    proof {
                        assert forall|j: int| i <= j < self.keys().len() implies seq_lt(key@, #[trigger] self.keys()[j]) by {
                            if j > i {
                                lemma_seq_lt_transitive(key@, self.keys()[i as int], self.keys()[j]);
                            }
                        }
                        assert forall|j: int| 0 <= j < self.keys().len() implies self.keys()[j] != key@ by {
                            if self.keys()[j] == key@ {
                                lemma_seq_lt_irreflexive(key@);
                            }
                        }
                    }
                    return (i, false);
                },
            }
            i += 1;
        }
        proof {
            assert forall|j: int| 0 <= j < self.keys().len() implies self.keys()[j] != key@ by {
                if self.keys()[j] == key@ {
                    lemma_seq_lt_irreflexive(key@);
                }
            }
        }
        (i, false)
    }

    proof fn lemma_index_of(&self, key: Seq<char>, i: int)
        requires
            self.wf(),
            0 <= i < self.keys().len(),
            self.keys()[i] == key,
        ensures
            key_index(self.keys(), key) == Some(i),
    {
        lemma_sorted_index(self.keys(), key, i);
    }

    /// The value at `key`.
    pub fn get(&self, key: &VdmManifestTargetUrl) -> (r: Option<&V>)
        requires
            self.wf(),
        ensures
            match r {
                Some(v) => self.lookup(key@) == Some(*v),
                None => self.lookup(key@) is None,
            },
    {
        proof {
            self.lemma_lengths();
        }
        let (i, found) = self.position(key.to_chars().as_slice());
        if found {
            proof {
                self.lemma_index_of(key@, i as int);
            }
            Some(&self.entries[i].1)
        } else {
            proof {
                lemma_absent_index(self.keys(), key@);
            }
            None
        }
    }

    /// Whether `key` is present.
    pub fn contains_key(&self, key: &VdmManifestTargetUrl) -> (r: bool)
        requires
            self.wf(),
        ensures
            r == (self.lookup(key@) is Some),
            r == self.keys().contains(key@),
    {
        proof {
            self.lemma_lengths();
        }
        let (i, found) = self.position(key.to_chars().as_slice());
        if found {
            proof {
                self.lemma_index_of(key@, i as int);
                assert(self.keys().contains(key@)) by {
                    assert(self.keys()[i as int] == key@);
                }
            }
        } else {
            proof {
                lemma_absent_index(self.keys(), key@);
            }
        }
        found
    }

    /// Sets the value at `key`, keeping the keys in order.
    pub fn insert(&mut self, key: VdmManifestTargetUrl, value: V)
        requires
            old(self).wf(),
        ensures
            final(self).wf(),
            final(self).lookup(key@) == Some(value),
            forall|k: Seq<char>| k != key@ ==> final(self).lookup(k) == old(self).lookup(k),
            final(self).keys().to_set() == old(self).keys().to_set().insert(key@),
    {
        proof {
            self.lemma_lengths();
        }
        let ghost old_keys = self.keys();
        let ghost old_values = self.values();
        let (i, found) = self.position(key.to_chars().as_slice());
        if found {
            let ghost k = key@;
            self.entries.set(i, (key, value));
            proof {
                self.lemma_lengths();
                assert(self.keys() =~= old_keys);
                assert(self.values() =~= old_values.update(i as int, value));
                self.lemma_index_of(k, i as int);
                assert forall|k2: Seq<char>| k2 != k implies self.lookup(k2) == old_lookup(old_keys, old_values, k2) by {
                    if exists|j: int| 0 <= j < old_keys.len() && old_keys[j] == k2 {
                        let j = choose|j: int| 0 <= j < old_keys.len() && old_keys[j] == k2;
                        self.lemma_index_of(k2, j);
                        lemma_sorted_index(old_keys, k2, j);
                    } else {
                        lemma_absent_index(old_keys, k2);
                        lemma_absent_index(self.keys(), k2);
                    }
                }
                assert(old_keys.contains(k)) by {
                    assert(old_keys[i as int] == k);
                }
                assert(self.keys().to_set() =~= old_keys.to_set().insert(k));
            }
        } else {
            let ghost k = key@;
            self.entries.insert(i, (key, value));
            proof {
                self.lemma_lengths();
                assert(self.keys() =~= old_keys.insert(i as int, k));
                assert(self.values() =~= old_values.insert(i as int, value));
                assert(sorted_keys(self.keys())) by {
                    assert forall|a: int, b: int| 0 <= a < b < self.keys().len() implies seq_lt(
                        #[trigger] self.keys()[a],
                        #[trigger] self.keys()[b],
                    ) by {
                        if a < i && b > i {
                            lemma_seq_lt_transitive(self.keys()[a], k, self.keys()[b]);
                        }
                    }
                }
                self.lemma_index_of(k, i as int);
                assert forall|k2: Seq<char>| k2 != k implies self.lookup(k2) == old_lookup(old_keys, old_values, k2) by {
                    if exists|j: int| 0 <= j < old_keys.len() && old_keys[j] == k2 {
                        let j = choose|j: int| 0 <= j < old_keys.len() && old_keys[j] == k2;
                        let nj = if j < i { j } else { j + 1 };
                        assert(self.keys()[nj] == k2);
                        self.lemma_index_of(k2, nj);
                        lemma_sorted_index(old_keys, k2, j);
                    } else {
                        assert forall|j: int| 0 <= j < self.keys().len() implies self.keys()[j] != k2 by {
                            if j < i {
                                assert(self.keys()[j] == old_keys[j]);
                            } else if j > i {
                                assert(self.keys()[j] == old_keys[j - 1]);
                            }
                        }
                        lemma_absent_index(old_keys, k2);
                        lemma_absent_index(self.keys(), k2);
                    }
                }
                assert(self.keys().to_set() =~= old_keys.to_set().insert(k)) by {
                    assert forall|k2: Seq<char>| #[trigger] old_keys.to_set().insert(k).contains(k2) implies self.keys().to_set().contains(k2) by {
                        if k2 == k {
                            assert(self.keys()[i as int] == k);
                        } else {
                            let j = choose|j: int| 0 <= j < old_keys.len() && old_keys[j] == k2;
                            let nj = if j < i { j } else { j + 1 };
                            assert(self.keys()[nj] == k2);
                        }
                    }
                    assert forall|k2: Seq<char>| #[trigger] self.keys().to_set().contains(k2) implies old_keys.to_set().insert(k).contains(k2) by {
                        let j = choose|j: int| 0 <= j < self.keys().len() && self.keys()[j] == k2;
                        if j < i {
                            assert(old_keys[j] == k2);
                        } else if j > i {
                            assert(old_keys[j - 1] == k2);
                        }
                    }
                }
            }
        }
    }

    /// Replaces the value at position `i` of the key order.
    pub fn set_value(&mut self, i: usize, value: V)
        requires
            old(self).wf(),
            i < old(self).keys().len(),
        ensures
            final(self).wf(),
            final(self).keys() == old(self).keys(),
            final(self).values() == old(self).values().update(i as int, value),
    {
        proof {
            self.lemma_lengths();
        }
        let ghost old_keys = self.keys();
        let ghost old_values = self.values();
        let key = self.entries[i].0.clone();
        self.entries.set(i, (key, value));
        proof {
            self.lemma_lengths();
            assert(self.keys() =~= old_keys);
            assert(self.values() =~= old_values.update(i as int, value));
        }
    }

    /// Removes `key` and gives back its value.
    pub fn remove(&mut self, key: &VdmManifestTargetUrl) -> (r: Option<V>)
        requires
            old(self).wf(),
        ensures
            final(self).wf(),
            r == old(self).lookup(key@),
            final(self).lookup(key@) is None,
            forall|k: Seq<char>| k != key@ ==> final(self).lookup(k) == old(self).lookup(k),
            final(self).keys().to_set() == old(self).keys().to_set().remove(key@),
    {
        proof {
            self.lemma_lengths();
        }
        let ghost old_keys = self.keys();
        let ghost old_values = self.values();
        let (i, found) = self.position(key.to_chars().as_slice());
        if !found {
            proof {
                lemma_absent_index(old_keys, key@);
                assert(old_keys.to_set().remove(key@) =~= old_keys.to_set());
            }
            return None;
        }
        proof {
            self.lemma_index_of(key@, i as int);
        }
        let (_, v) = self.entries.remove(i);
        proof {
            self.lemma_lengths();
            assert(self.keys() =~= old_keys.remove(i as int));
            assert(self.values() =~= old_values.remove(i as int));
            assert(sorted_keys(self.keys())) by {
                assert forall|a: int, b: int| 0 <= a < b < self.keys().len() implies seq_lt(
                    #[trigger] self.keys()[a],
                    #[trigger] self.keys()[b],
                ) by {
                    let oa = if a < i { a } else { a + 1 };
                    let ob = if b < i { b } else { b + 1 };
                    assert(self.keys()[a] == old_keys[oa]);
                    assert(self.keys()[b] == old_keys[ob]);
                }
            }
            assert forall|j: int| 0 <= j < self.keys().len() implies self.keys()[j] != key@ by {
                let oj = if j < i { j } else { j + 1 };
                assert(self.keys()[j] == old_keys[oj]);
                if old_keys[oj] == key@ {
                    if oj < i {
                        assert(seq_lt(old_keys[oj], old_keys[i as int]));
                    } else {
                        assert(seq_lt(old_keys[i as int], old_keys[oj]));
                    }
                    lemma_seq_lt_irreflexive(key@);
                }
            }
            lemma_absent_index(self.keys(), key@);
            assert forall|k2: Seq<char>| k2 != key@ implies self.lookup(k2) == old_lookup(old_keys, old_values, k2) by {
                if exists|j: int| 0 <= j < old_keys.len() && old_keys[j] == k2 {
                    let j = choose|j: int| 0 <= j < old_keys.len() && old_keys[j] == k2;
                    assert(j != i);
                    let nj = if j < i { j } else { j - 1 };
                    assert(self.keys()[nj] == k2);
                    self.lemma_index_of(k2, nj);
                    lemma_sorted_index(old_keys, k2, j);
                } else {
                    assert forall|j: int| 0 <= j < self.keys().len() implies self.keys()[j] != k2 by {
                        let oj = if j < i { j } else { j + 1 };
                        assert(self.keys()[j] == old_keys[oj]);
                    }
                    lemma_absent_index(old_keys, k2);
                    lemma_absent_index(self.keys(), k2);
                }
            }
            assert(self.keys().to_set() =~= old_keys.to_set().remove(key@)) by {
                assert forall|k2: Seq<char>| #[trigger] old_keys.to_set().remove(key@).contains(k2) implies self.keys().to_set().contains(k2) by {
                    let j = choose|j: int| 0 <= j < old_keys.len() && old_keys[j] == k2;
                    let nj = if j < i { j } else { j - 1 };
                    assert(self.keys()[nj] == k2);
                }
                assert forall|k2: Seq<char>| #[trigger] self.keys().to_set().contains(k2) implies old_keys.to_set().remove(key@).contains(k2) by {
                    let j = choose|j: int| 0 <= j < self.keys().len() && self.keys()[j] == k2;
                    let oj = if j < i { j } else { j + 1 };
                    assert(old_keys[oj] == k2);
                }
            }
        }
        Some(v)
    }
}

/// What `lookup` gives on given keys and values.
pub open spec fn old_lookup<V>(keys: Seq<Seq<char>>, values: Seq<V>, key: Seq<char>) -> Option<V> {
    match key_index(keys, key) {
        Some(i) => Some(values[i]),
        None => None,
    }
}

} // verus!
