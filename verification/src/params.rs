//! Named parameters: (key, value) pairs, each key at most once, in the order
//! in which their keys were first inserted.
use vstd::prelude::*;

use crate::text::{chars_eq, chars_of, copy_chars, string_of};

verus! {

/// (key, value) pairs of texts.
pub type Pairs = Seq<(Seq<char>, Seq<char>)>;

/// No key occurs twice.
pub open spec fn keys_unique(ps: Pairs) -> bool {
    forall|i: int, j: int| 0 <= i < j < ps.len() ==> ps[i].0 != ps[j].0
}

/// Where key `k` stands, searching from the back.
pub open spec fn key_index(ps: Pairs, k: Seq<char>) -> Option<int>
    decreases ps.len(),
{
    if ps.len() == 0 {
        None
    } else if ps.last().0 == k {
        Some(ps.len() - 1)
    } else {
        key_index(ps.drop_last(), k)
    }
}

/// Some pair has key `k`.
pub open spec fn has_key(ps: Pairs, k: Seq<char>) -> bool {
    key_index(ps, k) is Some
}

/// The value stored under key `k`.
pub open spec fn value_of(ps: Pairs, k: Seq<char>) -> Option<Seq<char>> {
    match key_index(ps, k) {
        Some(i) => Some(ps[i].1),
        None => None,
    }
}

/// The keys.
pub open spec fn key_set(ps: Pairs) -> Set<Seq<char>> {
    Set::new(|k: Seq<char>| has_key(ps, k))
}

/// Inserting `(k, v)`: a key already present keeps its place and takes the
/// new value; a new key goes last.
pub open spec fn pairs_insert(ps: Pairs, k: Seq<char>, v: Seq<char>) -> Pairs {
    match key_index(ps, k) {
        Some(i) => ps.update(i, (k, v)),
        None => ps.push((k, v)),
    }
}

/// Inserting the pairs of `kvs` one after the other into an empty set of pairs.
pub open spec fn pairs_from(kvs: Pairs) -> Pairs
    decreases kvs.len(),
{
    if kvs.len() == 0 {
        Seq::empty()
    } else {
        pairs_insert(pairs_from(kvs.drop_last()), kvs.last().0, kvs.last().1)
    }
}

/// The views of stored entries.
pub open spec fn entries_view(es: Seq<(Vec<char>, Vec<char>)>) -> Pairs {
    es.map_values(|e: (Vec<char>, Vec<char>)| (e.0@, e.1@))
}

/// The views of (key, value) strings.
pub open spec fn string_pairs_view(es: Seq<(String, String)>) -> Pairs {
    es.map_values(|e: (String, String)| (e.0@, e.1@))
}

pub proof fn lemma_key_index(ps: Pairs, k: Seq<char>)
    ensures
        key_index(ps, k) matches Some(i) ==> 0 <= i < ps.len() && ps[i].0 == k,
        key_index(ps, k) is None ==> forall|i: int| 0 <= i < ps.len() ==> ps[i].0 != k,
    decreases ps.len(),
{
    if ps.len() > 0 && ps.last().0 != k {
        lemma_key_index(ps.drop_last(), k);
        if key_index(ps, k) is None {
            assert forall|i: int| 0 <= i < ps.len() implies ps[i].0 != k by {
                if i < ps.len() - 1 {
                    assert(ps[i] == ps.drop_last()[i]);
                }
            }
        }
    }
}

/// With unique keys, the key at `i` is found at `i`.
pub proof fn lemma_key_index_unique(ps: Pairs, i: int)
    requires
        keys_unique(ps),
        0 <= i < ps.len(),
    ensures
        key_index(ps, ps[i].0) == Some(i),
{
    lemma_key_index(ps, ps[i].0);
    match key_index(ps, ps[i].0) {
        Some(j) => {
            if j < i {
                assert(ps[j].0 != ps[i].0);
            } else if j > i {
                assert(ps[i].0 != ps[j].0);
            }
        },
        None => {},
    }
}

/// Inserting keeps the keys unique, and makes `k` a key with value `v`.
pub proof fn lemma_pairs_insert(ps: Pairs, k: Seq<char>, v: Seq<char>)
    requires
        keys_unique(ps),
    ensures
        keys_unique(pairs_insert(ps, k, v)),
        value_of(pairs_insert(ps, k, v), k) == Some(v),
        forall|q: Seq<char>|
            q != k ==> #[trigger] value_of(pairs_insert(ps, k, v), q) == value_of(ps, q),
        key_set(pairs_insert(ps, k, v)) == key_set(ps).insert(k),
{
    let r = pairs_insert(ps, k, v);
    lemma_key_index(ps, k);
    assert forall|q: Seq<char>| #[trigger] has_key(r, q) == has_key(ps, q) || q == k by {
        lemma_key_index(r, q);
        lemma_key_index(ps, q);
        if has_key(ps, q) {
            let i = key_index(ps, q)->0;
            assert(r[i].0 == q);
        }
        if has_key(r, q) && q != k {
            let i = key_index(r, q)->0;
            assert(ps[i].0 == q);
        }
    }
    let idx = match key_index(ps, k) {
        Some(i) => i,
        None => ps.len() as int,
    };
    assert(r[idx].0 == k);
    assert forall|i: int, j: int| 0 <= i < j < r.len() implies r[i].0 != r[j].0 by {
        if i != idx && j != idx {
            assert(r[i] == ps[i] && r[j] == ps[j]);
        } else if i == idx {
            assert(r[j] == ps[j]);
        } else {
            assert(r[i] == ps[i]);
        }
    }
    assert(keys_unique(r));
    lemma_key_index_unique(r, idx);
    assert forall|q: Seq<char>| q != k implies #[trigger] value_of(r, q) == value_of(ps, q) by {
        lemma_key_index(ps, q);
        if has_key(ps, q) {
            let i = key_index(ps, q)->0;
            lemma_key_index_unique(ps, i);
            lemma_key_index_unique(r, i);
        } else {
            lemma_key_index(r, q);
        }
    }
    assert(key_set(r) =~= key_set(ps).insert(k));
}

/// Named parameters with unique keys, in the order of first insertion.
pub struct Params {
    entries: Vec<(Vec<char>, Vec<char>)>,
}

impl View for Params {
    type V = Pairs;

    closed spec fn view(&self) -> Pairs {
        entries_view(self.entries@)
    }
}

impl Params {
    #[verifier::type_invariant]
    spec fn unique_keys(self) -> bool {
        keys_unique(entries_view(self.entries@))
    }

    /// Parameters with no entry.
    pub fn new() -> (p: Params)
        ensures
            p@ == Seq::<(Seq<char>, Seq<char>)>::empty(),
    {
        let p = Params { entries: Vec::new() };
        assert(p@ =~= Seq::<(Seq<char>, Seq<char>)>::empty());
        p
    }

    /// The number of entries.
    pub fn len(&self) -> (n: usize)
        ensures
            n == self@.len(),
            keys_unique(self@),
    {
        proof {
            use_type_invariant(self);
        }
        self.entries.len()
    }

    /// The key of entry `i`.
    pub fn key_at(&self, i: usize) -> (k: &Vec<char>)
        requires
            i < self@.len(),
        ensures
            k@ == self@[i as int].0,
    {
        &self.entries[i].0
    }

    /// The value of entry `i`.
    pub fn value_at(&self, i: usize) -> (v: &Vec<char>)
        requires
            i < self@.len(),
        ensures
            v@ == self@[i as int].1,
    {
        &self.entries[i].1
    }

    /// Where key `key` stands.
    pub fn find(&self, key: &Vec<char>) -> (r: Option<usize>)
        ensures
            match r {
                Some(i) => key_index(self@, key@) == Some(i as int),
                None => key_index(self@, key@) is None,
            },
    {
        let mut i = self.entries.len();
        assert(self@.take(i as int) =~= self@);
        while i > 0
            invariant
                i <= self@.len(),
                key_index(self@, key@) == key_index(self@.take(i as int), key@),
            decreases i,
        {
            if chars_eq(&self.entries[i - 1].0, key) {
                return Some(i - 1);
            }
            assert(self@.take(i as int).drop_last() =~= self@.take(i - 1));
            i = i - 1;
        }
        None
    }

    /// Whether `key` is a key, given as characters.
    pub fn contains_key_chars(&self, key: &Vec<char>) -> (b: bool)
        ensures
            b == has_key(self@, key@),
    {
        self.find(key).is_some()
    }

    /// Whether `key` is a key.
    pub fn contains_key(&self, key: &str) -> (b: bool)
        ensures
            b == has_key(self@, key@),
    {
        let k = chars_of(key);
        self.contains_key_chars(&k)
    }

    /// The value stored under `key`.
    pub fn get(&self, key: &str) -> (r: Option<String>)
        ensures
            match value_of(self@, key@) {
                Some(v) => r matches Some(s) && s@ == v,
                None => r is None,
            },
    {
        let k = chars_of(key);
        proof {
            lemma_key_index(self@, k@);
        }
        match self.find(&k) {
            Some(i) => {
                assert(self@[i as int].1 == self.entries@[i as int].1@);
                Some(string_of(&self.entries[i].1))
            },
            None => None,
        }
    }

    /// Inserts `(key, value)`, given as characters.
    pub fn insert_chars(&mut self, key: Vec<char>, value: Vec<char>)
        ensures
            final(self)@ == pairs_insert(old(self)@, key@, value@),
            keys_unique(final(self)@),
    {
        proof {
            use_type_invariant(&*self);
            lemma_pairs_insert(self@, key@, value@);
            lemma_key_index(self@, key@);
        }
        let ghost pre = self@;
        let found = self.find(&key);
        let mut es: Vec<(Vec<char>, Vec<char>)> = Vec::new();
        std::mem::swap(&mut es, &mut self.entries);
        let ghost before = entries_view(es@);
        assert(before == pre);
        match found {
            Some(i) => {
                es.set(i, (key, value));
                assert(entries_view(es@) =~= before.update(i as int, (key@, value@)));
            },
            None => {
                es.push((key, value));
                assert(entries_view(es@) =~= before.push((key@, value@)));
            },
        }
        assert(entries_view(es@) == pairs_insert(pre, key@, value@));
        assert(keys_unique(entries_view(es@)));
        self.entries = es;
    }

    /// Inserts `(key, value)`. A key already present keeps its place and
    /// takes the new value; a new key goes last.
    pub fn insert(&mut self, key: String, value: String)
        ensures
            final(self)@ == pairs_insert(old(self)@, key@, value@),
            keys_unique(final(self)@),
    {
        let k = chars_of(key.as_str());
        let v = chars_of(value.as_str());
        self.insert_chars(k, v);
    }

    /// The parameters made by inserting `pairs` one after the other.
    pub fn from_pairs(pairs: Vec<(String, String)>) -> (p: Params)
        ensures
            p@ == pairs_from(string_pairs_view(pairs@)),
            keys_unique(p@),
    {
        let mut p = Params::new();
        let mut i: usize = 0;
        while i < pairs.len()
            invariant
                i <= pairs.len(),
                p@ == pairs_from(string_pairs_view(pairs@).take(i as int)),
            decreases pairs.len() - i,
        {
            let k = chars_of(pairs[i].0.as_str());
            let v = chars_of(pairs[i].1.as_str());
            p.insert_chars(k, v);
            assert(string_pairs_view(pairs@).take(i + 1).drop_last() =~= string_pairs_view(
                pairs@,
            ).take(i as int));
            i = i + 1;
        }
        assert(string_pairs_view(pairs@).take(pairs.len() as int) =~= string_pairs_view(pairs@));
        proof {
            use_type_invariant(&p);
        }
        p
    }

    /// A copy of the parameters.
    pub fn copy(&self) -> (p: Params)
        ensures
            p@ == self@,
            keys_unique(p@),
    {
        proof {
            use_type_invariant(self);
        }
        let mut es: Vec<(Vec<char>, Vec<char>)> = Vec::new();
        let mut i: usize = 0;
        while i < self.entries.len()
            invariant
                i <= self.entries.len(),
                entries_view(es@) == self@.take(i as int),
            decreases self.entries.len() - i,
        {
            let ghost prev = entries_view(es@);
            es.push((copy_chars(&self.entries[i].0), copy_chars(&self.entries[i].1)));
            assert(self@[i as int] == (self.entries@[i as int].0@, self.entries@[i as int].1@));
            assert(entries_view(es@) =~= prev.push(self@[i as int]));
            assert(self@.take(i + 1) =~= self@.take(i as int).push(self@[i as int]));
            i = i + 1;
        }
        assert(self@.take(self@.len() as int) =~= self@);
        Params { entries: es }
    }
}

impl Clone for Params {
    fn clone(&self) -> (p: Self)
        ensures
            p@ == self@,
    {
        self.copy()
    }
}

impl Default for Params {
    fn default() -> (p: Self)
        ensures
            p@ == Seq::<(Seq<char>, Seq<char>)>::empty(),
    {
        Params::new()
    }
}

} // verus!
