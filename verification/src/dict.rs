//! A small string-to-string mapping that remembers the order in which its
//! keys first came.

use vstd::prelude::*;

verus! {

/// The position of the first pair of `e` whose key is `k`, or `e.len()`.
pub open spec fn key_index(e: Seq<(Seq<char>, Seq<char>)>, k: Seq<char>) -> nat
    decreases e.len(),
{
    if e.len() == 0 {
        0
    } else if e[0].0 == k {
        0
    } else {
        1 + key_index(e.drop_first(), k)
    }
}

/// Whether some pair of `e` has the key `k`.
pub open spec fn has_key(e: Seq<(Seq<char>, Seq<char>)>, k: Seq<char>) -> bool {
    key_index(e, k) < e.len()
}

/// The value that `e` holds under `k`.
pub open spec fn lookup(e: Seq<(Seq<char>, Seq<char>)>, k: Seq<char>) -> Option<Seq<char>> {
    if has_key(e, k) {
        Some(e[key_index(e, k) as int].1)
    } else {
        None
    }
}

/// `e` with `v` under `k`: in the place of the pair that had the key, or
/// else at the end.
pub open spec fn put(e: Seq<(Seq<char>, Seq<char>)>, k: Seq<char>, v: Seq<char>) -> Seq<
    (Seq<char>, Seq<char>),
> {
    if has_key(e, k) {
        e.update(key_index(e, k) as int, (k, v))
    } else {
        e.push((k, v))
    }
}

/// Whether no key occurs twice in `e`.
pub open spec fn distinct_keys(e: Seq<(Seq<char>, Seq<char>)>) -> bool {
    forall|i: int, j: int| 0 <= i < j < e.len() ==> e[i].0 != e[j].0
}

/// The mapping that the pairs of `e` stand for.
pub open spec fn as_map(e: Seq<(Seq<char>, Seq<char>)>) -> Map<Seq<char>, Seq<char>> {
    Map::new(|k: Seq<char>| has_key(e, k), |k: Seq<char>| e[key_index(e, k) as int].1)
}

/// `key_index` lies within `e`, no pair in front of it has the key, and where
/// it is short of the end the pair there has it.
pub proof fn lemma_key_index(e: Seq<(Seq<char>, Seq<char>)>, k: Seq<char>)
    ensures
        key_index(e, k) <= e.len(),
        forall|j: int| 0 <= j < key_index(e, k) ==> e[j].0 != k,
        has_key(e, k) ==> e[key_index(e, k) as int].0 == k,
    decreases e.len(),
{
    if e.len() > 0 && e[0].0 != k {
        let t = e.drop_first();
        lemma_key_index(t, k);
        assert forall|j: int| 0 <= j < key_index(e, k) implies e[j].0 != k by {
            if j > 0 {
                assert(e[j] == t[j - 1]);
            }
        }
    }
}

/// The position that `lemma_key_index` describes is the only one.
pub proof fn lemma_key_index_is(e: Seq<(Seq<char>, Seq<char>)>, k: Seq<char>, i: int)
    requires
        0 <= i <= e.len(),
        forall|j: int| 0 <= j < i ==> e[j].0 != k,
        i < e.len() ==> e[i].0 == k,
    ensures
        key_index(e, k) == i,
    decreases e.len(),
{
    if i > 0 {
        let t = e.drop_first();
        assert forall|j: int| 0 <= j < i - 1 implies t[j].0 != k by {
            assert(t[j] == e[j + 1]);
        }
        lemma_key_index_is(t, k, i - 1);
    }
}

/// Where `put` leaves each key: the new key at the place that `put` chose,
/// every other key where it was.
pub proof fn lemma_put_index(
    e: Seq<(Seq<char>, Seq<char>)>,
    k: Seq<char>,
    v: Seq<char>,
    q: Seq<char>,
)
    ensures
        q == k ==> key_index(put(e, k, v), q) == key_index(e, k) && has_key(put(e, k, v), q),
        q != k ==> has_key(put(e, k, v), q) == has_key(e, q),
        q != k && has_key(e, q) ==> key_index(put(e, k, v), q) == key_index(e, q),
{
    let f = put(e, k, v);
    lemma_key_index(e, k);
    lemma_key_index(e, q);
    let i = key_index(e, k) as int;
    let iq = key_index(e, q) as int;
    if q == k {
        assert forall|j: int| 0 <= j < i implies f[j].0 != k by {
            assert(f[j] == e[j]);
        }
        lemma_key_index_is(f, k, i);
    } else if iq < e.len() {
        assert forall|j: int| 0 <= j < iq implies f[j].0 != q by {
            if j != i {
                assert(f[j] == e[j]);
            }
        }
        assert(f[iq] == e[iq]);
        lemma_key_index_is(f, q, iq);
    } else {
        assert forall|j: int| 0 <= j < f.len() implies f[j].0 != q by {
            if j != i {
                assert(f[j] == e[j]);
            }
        }
        lemma_key_index_is(f, q, f.len() as int);
    }
}

/// After `put` the key has the new value, every other key has what it had,
/// and no key has come twice.
pub proof fn lemma_put(e: Seq<(Seq<char>, Seq<char>)>, k: Seq<char>, v: Seq<char>)
    ensures
        as_map(put(e, k, v)) == as_map(e).insert(k, v),
        distinct_keys(e) ==> distinct_keys(put(e, k, v)),
{
    let f = put(e, k, v);
    lemma_key_index(e, k);
    let i = key_index(e, k) as int;
    assert forall|q: Seq<char>| #[trigger]
        as_map(f).dom().contains(q) == as_map(e).insert(k, v).dom().contains(q) by {
        lemma_put_index(e, k, v, q);
    }
    assert forall|q: Seq<char>| #[trigger] as_map(f).dom().contains(q) implies as_map(f)[q]
        == as_map(e).insert(k, v)[q] by {
        lemma_put_index(e, k, v, q);
        lemma_key_index(e, q);
    }
    assert(as_map(f) =~= as_map(e).insert(k, v));
    if distinct_keys(e) {
        assert forall|a: int, b: int| 0 <= a < b < f.len() implies f[a].0 != f[b].0 by {
            if i < e.len() {
                assert(e[i].0 == k);
                assert(a != i ==> f[a] == e[a]);
                assert(b != i ==> f[b] == e[b]);
            } else {
                assert(f[a] == e[a]);
                assert(b < e.len() ==> f[b] == e[b]);
            }
        }
    }
}

/// A mapping from strings to strings. A key occurs once; a second value for
/// it takes the place of the first.
#[derive(Debug)]
pub struct StringMap {
    pairs: Vec<(String, String)>,
}

impl View for StringMap {
    type V = Map<Seq<char>, Seq<char>>;

    open spec fn view(&self) -> Map<Seq<char>, Seq<char>> {
        as_map(self.entries())
    }
}

impl StringMap {
    /// The pairs of the mapping, in the order in which their keys first came.
    pub closed spec fn entries(&self) -> Seq<(Seq<char>, Seq<char>)> {
        Seq::new(self.pairs@.len(), |i: int| (self.pairs@[i].0@, self.pairs@[i].1@))
    }

    /// The invariant of the mapping: no key occurs twice.
    pub open spec fn wf(&self) -> bool {
        distinct_keys(self.entries())
    }

    /// The empty mapping.
    pub fn new() -> (r: Self)
        ensures
            r.entries() == Seq::<(Seq<char>, Seq<char>)>::empty(),
            r@ == Map::<Seq<char>, Seq<char>>::empty(),
            r.wf(),
    {
        let r = StringMap { pairs: Vec::new() };
        assert(r.entries() =~= Seq::<(Seq<char>, Seq<char>)>::empty());
        assert(r@ =~= Map::<Seq<char>, Seq<char>>::empty());
        r
    }

    /// The number of keys.
    pub fn len(&self) -> (n: usize)
        ensures
            n == self.entries().len(),
    {
        self.pairs.len()
    }

    /// Whether the mapping holds no key.
    pub fn is_empty(&self) -> (r: bool)
        ensures
            r == (self.entries().len() == 0),
    {
        self.pairs.len() == 0
    }

    /// The key of the pair at position `i`.
    pub fn key_at(&self, i: usize) -> (k: &String)
        requires
            i < self.entries().len(),
        ensures
            k@ == self.entries()[i as int].0,
    {
        &self.pairs[i].0
    }

    /// The value of the pair at position `i`.
    pub fn value_at(&self, i: usize) -> (v: &String)
        requires
            i < self.entries().len(),
        ensures
            v@ == self.entries()[i as int].1,
    {
        &self.pairs[i].1
    }

    fn position(&self, key: &String) -> (i: usize)
        ensures
            i == key_index(self.entries(), key@),
            i <= self.entries().len(),
    {
        let mut i: usize = 0;
        while i < self.pairs.len()
            invariant
                i <= self.pairs.len(),
                forall|j: int| 0 <= j < i ==> self.entries()[j].0 != key@,
            decreases self.pairs.len() - i,
        {
            if self.pairs[i].0 == *key {
                proof {
                    lemma_key_index_is(self.entries(), key@, i as int);
                }
                return i;
            }
            i += 1;
        }
        proof {
            lemma_key_index_is(self.entries(), key@, i as int);
        }
        i
    }

    /// The value under `key`, if the mapping has the key.
    pub fn get(&self, key: &str) -> (r: Option<&String>)
        ensures
            match r {
                Some(v) => lookup(self.entries(), key@) == Some(v@),
                None => lookup(self.entries(), key@) is None,
            },
            r is Some == self@.contains_key(key@),
            r matches Some(v) ==> v@ == self@[key@],
    {
        let k = String::from_str(key);
        let i = self.position(&k);
        if i < self.pairs.len() {
            Some(&self.pairs[i].1)
        } else {
            None
        }
    }

    /// Whether the mapping has `key`.
    pub fn contains_key(&self, key: &str) -> (r: bool)
        ensures
            r == has_key(self.entries(), key@),
            r == self@.contains_key(key@),
    {
        let k = String::from_str(key);
        let i = self.position(&k);
        i < self.pairs.len()
    }

    /// Puts `value` under `key`. A key that the mapping has keeps its place
    /// and loses its earlier value.
    pub fn insert(&mut self, key: String, value: String)
        ensures
            final(self).entries() == put(old(self).entries(), key@, value@),
            final(self)@ == old(self)@.insert(key@, value@),
            old(self).wf() ==> final(self).wf(),
    {
        proof {
            lemma_put(self.entries(), key@, value@);
        }
        let ghost before = self.entries();
        let ghost k = key@;
        let ghost v = value@;
        let i = self.position(&key);
        if i < self.pairs.len() {
            self.pairs.set(i, (key, value));
        } else {
            self.pairs.push((key, value));
        }
        assert(self.entries() =~= put(before, k, v));
    }
}

impl Clone for StringMap {
    fn clone(&self) -> (r: Self)
        ensures
            r.entries() == self.entries(),
            r@ == self@,
    {
        let mut pairs: Vec<(String, String)> = Vec::new();
        let mut i: usize = 0;
        while i < self.pairs.len()
            invariant
                i <= self.pairs.len(),
                pairs@.len() == i,
                forall|j: int|
                    0 <= j < i ==> pairs@[j].0@ == self.pairs@[j].0@ && pairs@[j].1@
                        == self.pairs@[j].1@,
            decreases self.pairs.len() - i,
        {
            pairs.push((self.pairs[i].0.clone(), self.pairs[i].1.clone()));
            i += 1;
        }
        let ghost e = Seq::new(pairs@.len(), |i: int| (pairs@[i].0@, pairs@[i].1@));
        assert(e =~= self.entries());
        StringMap { pairs }
    }
}

} // verus!
