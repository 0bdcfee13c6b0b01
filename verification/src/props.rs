//! Property maps: string keys to string values, kept in the order in which
//! the keys first arrived.
//!
//! In contracts a property map reads as a sequence of `(key, value)` pairs
//! ([`PropSeq`]); [`prop_map`] forgets the order.
use vstd::prelude::*;

verus! {

/// The pairs of a property map, oldest key first.
pub type PropSeq = Seq<(Seq<char>, Seq<char>)>;

/// The keys of `s`, in order.
pub open spec fn prop_keys(s: PropSeq) -> Seq<Seq<char>> {
    s.map_values(|p: (Seq<char>, Seq<char>)| p.0)
}

/// Where `key` stands in `s`, if anywhere (its first place, should it occur
/// more than once).
pub open spec fn prop_find(s: PropSeq, key: Seq<char>) -> Option<int> {
    prop_keys(s).index_of_first(key)
}

/// No key occurs twice.
pub open spec fn keys_distinct(s: PropSeq) -> bool {
    forall|i: int, j: int| 0 <= i < j < s.len() ==> s[i].0 != s[j].0
}

/// `s` after `key` is set to `value`: a known key keeps its place and takes
/// the new value, a new key goes to the end.
pub open spec fn prop_insert(s: PropSeq, key: Seq<char>, value: Seq<char>) -> PropSeq {
    match prop_find(s, key) {
        Some(i) => s.update(i, (key, value)),
        None => s.push((key, value)),
    }
}

/// `base` after every pair of `extra` has been set in it, in order: on a key
/// that both hold, the value of `extra` wins.
pub open spec fn prop_merge(base: PropSeq, extra: PropSeq) -> PropSeq
    decreases extra.len(),
{
    if extra.len() == 0 {
        base
    } else {
        prop_insert(prop_merge(base, extra.drop_last()), extra.last().0, extra.last().1)
    }
}

/// The unordered map that `s` stands for.
pub open spec fn prop_map(s: PropSeq) -> Map<Seq<char>, Seq<char>> {
    Map::new(
        |k: Seq<char>| prop_find(s, k) is Some,
        |k: Seq<char>| s[prop_find(s, k).unwrap()].1,
    )
}

/// What `prop_find` returns, spelled out.
pub proof fn lemma_prop_find(s: PropSeq, key: Seq<char>)
    ensures
        match prop_find(s, key) {
            Some(i) => {
                &&& 0 <= i < s.len()
                &&& s[i].0 == key
                &&& forall|j: int| 0 <= j < i ==> s[j].0 != key
            },
            None => forall|j: int| 0 <= j < s.len() ==> s[j].0 != key,
        },
{
    let keys = prop_keys(s);
    keys.index_of_first_ensures(key);
    match prop_find(s, key) {
        Some(i) => {
            assert(keys[i] == s[i].0);
            assert forall|j: int| 0 <= j < i implies s[j].0 != key by {
                assert(keys[j] == s[j].0);
            }
        },
        None => {
            assert forall|j: int| 0 <= j < s.len() implies s[j].0 != key by {
                assert(keys[j] == s[j].0);
                assert(keys.contains(keys[j]));
            }
        },
    }
}

/// A key found at `i` with no earlier match is where `prop_find` points; a
/// key matched nowhere is not found.
pub proof fn lemma_prop_find_at(s: PropSeq, key: Seq<char>, i: int)
    requires
        0 <= i <= s.len(),
        forall|j: int| 0 <= j < i ==> s[j].0 != key,
        i < s.len() ==> s[i].0 == key,
    ensures
        prop_find(s, key) == (if i < s.len() {
            Some(i)
        } else {
            None::<int>
        }),
{
    lemma_prop_find(s, key);
}

/// Setting a key keeps the keys distinct.
pub proof fn lemma_insert_distinct(s: PropSeq, key: Seq<char>, value: Seq<char>)
    requires
        keys_distinct(s),
    ensures
        keys_distinct(prop_insert(s, key, value)),
{
    lemma_prop_find(s, key);
}

/// Setting a key in the pairs sets it in the map they stand for.
pub proof fn lemma_insert_map(s: PropSeq, key: Seq<char>, value: Seq<char>)
    ensures
        prop_map(prop_insert(s, key, value)) == prop_map(s).insert(key, value),
{
    let t = prop_insert(s, key, value);
    lemma_prop_find(s, key);
    assert forall|k: Seq<char>|
        (#[trigger] prop_find(t, k) is Some) == (k == key || prop_find(s, k) is Some) && (prop_find(
            t,
            k,
        ) is Some ==> t[prop_find(t, k).unwrap()].1 == (if k == key {
            value
        } else {
            s[prop_find(s, k).unwrap()].1
        })) by {
        lemma_prop_find(s, k);
        lemma_prop_find(t, k);
        match prop_find(s, key) {
            Some(i) => {
                if k == key {
                    lemma_prop_find_at(t, k, i);
                } else {
                    match prop_find(s, k) {
                        Some(p) => {
                            lemma_prop_find_at(t, k, p);
                        },
                        None => {
                            lemma_prop_find_at(t, k, t.len() as int);
                        },
                    }
                }
            },
            None => {
                if k == key {
                    lemma_prop_find_at(t, k, s.len() as int);
                } else {
                    match prop_find(s, k) {
                        Some(p) => {
                            lemma_prop_find_at(t, k, p);
                        },
                        None => {
                            lemma_prop_find_at(t, k, t.len() as int);
                        },
                    }
                }
            },
        }
    }
    assert(prop_map(t) =~= prop_map(s).insert(key, value));
}

/// Merging keeps the keys distinct.
pub proof fn lemma_merge_distinct(base: PropSeq, extra: PropSeq)
    requires
        keys_distinct(base),
    ensures
        keys_distinct(prop_merge(base, extra)),
    decreases extra.len(),
{
    if extra.len() > 0 {
        lemma_merge_distinct(base, extra.drop_last());
        lemma_insert_distinct(
            prop_merge(base, extra.drop_last()),
            extra.last().0,
            extra.last().1,
        );
    }
}

/// Last writer wins: merging the pairs is the union of the maps, and on a key
/// that both hold the value of `extra` stands.
pub proof fn lemma_merge_map(base: PropSeq, extra: PropSeq)
    requires
        keys_distinct(extra),
    ensures
        prop_map(prop_merge(base, extra)) == prop_map(base).union_prefer_right(prop_map(extra)),
    decreases extra.len(),
{
    if extra.len() == 0 {
        assert forall|k: Seq<char>| !(#[trigger] prop_map(extra).dom().contains(k)) by {
            lemma_prop_find(extra, k);
        }
        assert(prop_map(base).union_prefer_right(prop_map(extra)) =~= prop_map(base));
    } else {
        let front = extra.drop_last();
        let e = extra.last();
        lemma_merge_map(base, front);
        lemma_insert_map(prop_merge(base, front), e.0, e.1);
        lemma_prop_find(front, e.0);
        lemma_push_map(front, e.0, e.1);
        assert(front.push(e) =~= extra);
        assert(prop_map(base).union_prefer_right(prop_map(front)).insert(e.0, e.1) =~= prop_map(
            base,
        ).union_prefer_right(prop_map(front).insert(e.0, e.1)));
    }
}

/// Appending a pair sets its key in the map unless an earlier pair holds that
/// key already.
proof fn lemma_push_map(s: PropSeq, key: Seq<char>, value: Seq<char>)
    ensures
        prop_map(s.push((key, value))) == (if prop_find(s, key) is Some {
            prop_map(s)
        } else {
            prop_map(s).insert(key, value)
        }),
{
    let t = s.push((key, value));
    assert forall|k: Seq<char>|
        (#[trigger] prop_find(t, k) is Some) == (k == key || prop_find(s, k) is Some) && (prop_find(
            t,
            k,
        ) is Some ==> t[prop_find(t, k).unwrap()].1 == (if prop_find(s, k) is Some {
            s[prop_find(s, k).unwrap()].1
        } else {
            value
        })) by {
        lemma_prop_find(s, k);
        lemma_prop_find(t, k);
        match prop_find(s, k) {
            Some(p) => {
                lemma_prop_find_at(t, k, p);
            },
            None => {
                if k == key {
                    lemma_prop_find_at(t, k, s.len() as int);
                } else {
                    lemma_prop_find_at(t, k, t.len() as int);
                }
            },
        }
    }
    if prop_find(s, key) is Some {
        assert(prop_map(t) =~= prop_map(s));
    } else {
        assert(prop_map(t) =~= prop_map(s).insert(key, value));
    }
}

/// A property map: string keys to string values. No key occurs twice, and the
/// pairs keep the order in which their keys first arrived.
#[derive(Debug)]
pub struct PropMap {
    entries: Vec<(String, String)>,
}

impl View for PropMap {
    type V = PropSeq;

    closed spec fn view(&self) -> PropSeq {
        self.entries@.map_values(|e: (String, String)| (e.0@, e.1@))
    }
}

impl Clone for PropMap {
    fn clone(&self) -> (copy: Self)
        ensures
            copy@ == self@,
    {
        proof {
            use_type_invariant(self);
        }
        let mut entries: Vec<(String, String)> = Vec::new();
        let mut i: usize = 0;
        while i < self.entries.len()
            invariant
                i <= self.entries.len(),
                entries@.len() == i,
                forall|j: int|
                    0 <= j < i ==> (#[trigger] entries@[j]).0@ == self.entries@[j].0@
                        && entries@[j].1@ == self.entries@[j].1@,
            decreases self.entries.len() - i,
        {
            let key = self.entries[i].0.clone();
            let value = self.entries[i].1.clone();
            entries.push((key, value));
            i += 1;
        }
        assert(entries@.map_values(|e: (String, String)| (e.0@, e.1@)) =~= self@);
        PropMap { entries }
    }
}

impl PropMap {
    #[verifier::type_invariant]
    spec fn inv(self) -> bool {
        keys_distinct(self@)
    }

    /// The map without pairs.
    pub fn new() -> (m: Self)
        ensures
            m@ == Seq::<(Seq<char>, Seq<char>)>::empty(),
    {
        let m = PropMap { entries: Vec::new() };
        assert(m@ =~= Seq::<(Seq<char>, Seq<char>)>::empty());
        m
    }

    /// The number of pairs; the keys are distinct.
    pub fn len(&self) -> (n: usize)
        ensures
            n == self@.len(),
            keys_distinct(self@),
    {
        proof {
            use_type_invariant(self);
        }
        self.entries.len()
    }

    pub fn is_empty(&self) -> (b: bool)
        ensures
            b == (self@.len() == 0),
    {
        self.entries.len() == 0
    }

    /// The pair at place `i`, if the map has that many.
    pub fn entry(&self, i: usize) -> (pair: Option<(&String, &String)>)
        ensures
            match pair {
                Some(p) => i < self@.len() && p.0@ == self@[i as int].0 && p.1@
                    == self@[i as int].1,
                None => i >= self@.len(),
            },
    {
        if i < self.entries.len() {
            let e = &self.entries[i];
            Some((&e.0, &e.1))
        } else {
            None
        }
    }

    /// The place of `key`, if the map holds it.
    pub fn position(&self, key: &str) -> (at: Option<usize>)
        ensures
            match at {
                Some(i) => prop_find(self@, key@) == Some(i as int),
                None => prop_find(self@, key@) is None,
            },
    {
        let wanted = key.to_owned();
        let mut i: usize = 0;
        while i < self.entries.len()
            invariant
                i <= self.entries.len(),
                wanted@ == key@,
                forall|j: int| 0 <= j < i ==> self@[j].0 != key@,
            decreases self.entries.len() - i,
        {
            if self.entries[i].0 == wanted {
                proof {
                    lemma_prop_find_at(self@, key@, i as int);
                }
                return Some(i);
            }
            i += 1;
        }
        proof {
            lemma_prop_find_at(self@, key@, i as int);
        }
        None
    }

    /// The value under `key`, if the map holds it.
    pub fn get(&self, key: &str) -> (value: Option<&String>)
        ensures
            match value {
                Some(v) => prop_find(self@, key@) is Some && v@ == self@[prop_find(
                    self@,
                    key@,
                ).unwrap()].1,
                None => prop_find(self@, key@) is None,
            },
    {
        match self.position(key) {
            Some(i) => {
                proof {
                    lemma_prop_find(self@, key@);
                }
                Some(&self.entries[i].1)
            },
            None => None,
        }
    }

    pub fn contains_key(&self, key: &str) -> (b: bool)
        ensures
            b == (prop_find(self@, key@) is Some),
    {
        self.position(key).is_some()
    }

    /// Sets `key` to `value`.
    pub fn insert(&mut self, key: String, value: String)
        ensures
            final(self)@ == prop_insert(old(self)@, key@, value@),
    {
        proof {
            use_type_invariant(&*self);
            lemma_insert_distinct(self@, key@, value@);
            lemma_prop_find(self@, key@);
        }
        let at = self.position(key.as_str());
        let mut entries: Vec<(String, String)> = Vec::new();
        std::mem::swap(&mut entries, &mut self.entries);
        match at {
            Some(i) => {
                entries.set(i, (key, value));
            },
            None => {
                entries.push((key, value));
            },
        }
        let ghost target = prop_insert(old(self)@, key@, value@);
        assert(entries@.map_values(|e: (String, String)| (e.0@, e.1@)) =~= target);
        self.entries = entries;
    }

    /// Sets every pair of `other` in this map, in order.
    pub fn extend(&mut self, other: PropMap)
        ensures
            final(self)@ == prop_merge(old(self)@, other@),
    {
        let mut i: usize = 0;
        while i < other.entries.len()
            invariant
                i <= other.entries.len(),
                self@ == prop_merge(old(self)@, other@.take(i as int)),
            decreases other.entries.len() - i,
        {
            let key = other.entries[i].0.clone();
            let value = other.entries[i].1.clone();
            proof {
                assert(other@.take(i as int + 1).drop_last() =~= other@.take(i as int));
            }
            self.insert(key, value);
            i += 1;
        }
        assert(other@.take(i as int) =~= other@);
    }
}

} // verus!
