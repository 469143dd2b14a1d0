//! A small verified association list keyed by strings, used by the
//! in-memory stores: unique keys in insertion order, with exact contracts
//! for lookup, insertion, replacement and removal.

use vstd::prelude::*;
use vstd::pervasive::VecAdditionalExecFns;

use crate::bytes::str_eq;

verus! {

/// The first position of key `k` in `keys` at or after `i`.
pub open spec fn spec_find_key(keys: Seq<Seq<char>>, k: Seq<char>, i: int) -> Option<int>
    decreases keys.len() - i,
{
    if i < 0 || i >= keys.len() {
        None
    } else if keys[i] == k {
        Some(i)
    } else {
        spec_find_key(keys, k, i + 1)
    }
}

/// A found position carries the key; a miss means no position from `i` on
/// does.
pub proof fn lemma_find_key(keys: Seq<Seq<char>>, k: Seq<char>, i: int)
    requires
        i >= 0,
    ensures
        match spec_find_key(keys, k, i) {
            Some(p) => i <= p < keys.len() && keys[p] == k && forall|j: int|
                i <= j < p ==> keys[j] != k,
            None => forall|j: int| i <= j < keys.len() ==> keys[j] != k,
        },
    decreases keys.len() - i,
{
    if i < keys.len() && keys[i] != k {
        lemma_find_key(keys, k, i + 1);
    }
}

proof fn lemma_find_push(
    pre: Seq<Seq<char>>,
    post: Seq<Seq<char>>,
    k: Seq<char>,
    k2: Seq<char>,
    i: int,
)
    requires
        post == pre.push(k),
        0 <= i <= pre.len() + 1,
    ensures
        k2 != k ==> crate::kvlist::spec_find_key(post, k2, i) == crate::kvlist::spec_find_key(
            pre,
            k2,
            i,
        ),
        k2 == k && (forall|j: int| i <= j < pre.len() ==> pre[j] != k2) && i <= pre.len()
            ==> crate::kvlist::spec_find_key(post, k2, i) == Some(pre.len() as int),
    decreases pre.len() + 1 - i,
{
    if i < pre.len() {
        assert(post[i] == pre[i]);
        lemma_find_push(pre, post, k, k2, i + 1);
    } else if i == pre.len() {
        assert(post[i] == k);
        assert(spec_find_key(post, k2, i + 1) is None);
        assert(spec_find_key(pre, k2, i) is None);
    } else {
        assert(spec_find_key(post, k2, i) is None);
        assert(spec_find_key(pre, k2, i) is None);
    }
}

/// Association list with unique string keys, kept in insertion order.
pub struct KvList<V> {
    keys: Vec<String>,
    vals: Vec<V>,
}

impl<V> KvList<V> {
    /// The keys, in insertion order.
    pub closed spec fn spec_keys(&self) -> Seq<Seq<char>> {
        Seq::new(self.keys@.len(), |i: int| self.keys@[i]@)
    }

    /// The values, in insertion order.
    pub closed spec fn spec_vals(&self) -> Seq<V> {
        self.vals@
    }

    /// Number of entries.
    pub open spec fn spec_len(&self) -> int {
        self.spec_keys().len() as int
    }

    /// The position of key `k`, if present.
    pub open spec fn spec_index_of(&self, k: Seq<char>) -> Option<int> {
        spec_find_key(self.spec_keys(), k, 0)
    }

    /// Whether key `k` is present.
    pub open spec fn spec_contains(&self, k: Seq<char>) -> bool {
        self.spec_index_of(k) is Some
    }

    /// The value bound to key `k`, if any.
    pub open spec fn spec_get(&self, k: Seq<char>) -> Option<V> {
        match self.spec_index_of(k) {
            Some(i) => Some(self.spec_vals()[i]),
            None => None,
        }
    }

    /// With unique keys, a binding is any entry carrying the key.
    pub proof fn lemma_get_characterization(&self, k: Seq<char>)
        requires
            self.wf(),
        ensures
            match self.spec_get(k) {
                Some(v) => exists|j: int|
                    0 <= j < self.spec_len() && #[trigger] self.spec_keys()[j] == k
                        && self.spec_vals()[j] == v,
                None => forall|j: int|
                    0 <= j < self.spec_len() ==> #[trigger] self.spec_keys()[j] != k,
            },
            forall|j: int|
                0 <= j < self.spec_len() && #[trigger] self.spec_keys()[j] == k ==> self.spec_get(
                    k,
                ) == Some(self.spec_vals()[j]),
    {
        lemma_find_key(self.spec_keys(), k, 0);
        if self.spec_index_of(k) is Some {
            let i = self.spec_index_of(k).unwrap();
            assert forall|j: int|
                0 <= j < self.spec_len() && #[trigger] self.spec_keys()[j] == k implies self.spec_get(
                k,
            ) == Some(self.spec_vals()[j]) by {
                if j != i {
                    assert(self.spec_keys()[i] == self.spec_keys()[j]);
                }
            }
        }
    }

    /// Keys are unique and each key has a value.
    pub open spec fn wf(&self) -> bool {
        &&& self.spec_keys().len() == self.spec_vals().len()
        &&& forall|i: int, j: int|
            0 <= i < j < self.spec_keys().len() ==> self.spec_keys()[i] != self.spec_keys()[j]
    }

    /// Creates an empty list.
    pub fn new() -> (r: KvList<V>)
        ensures
            r.wf(),
            r.spec_len() == 0,
    {
        KvList { keys: Vec::new(), vals: Vec::new() }
    }

    /// Number of entries.
    pub fn len(&self) -> (r: usize)
        requires
            self.wf(),
        ensures
            r == self.spec_len(),
    {
        self.keys.len()
    }

    /// The position of key `k`, if present.
    pub fn index_of(&self, k: &str) -> (r: Option<usize>)
        requires
            self.wf(),
        ensures
            match r {
                Some(i) => self.spec_index_of(k@) == Some(i as int),
                None => self.spec_index_of(k@) is None,
            },
    {
        let mut i: usize = 0;
        while i < self.keys.len()
            invariant
                self.wf(),
                i <= self.spec_keys().len(),
                spec_find_key(self.spec_keys(), k@, 0) == spec_find_key(
                    self.spec_keys(),
                    k@,
                    i as int,
                ),
            decreases self.spec_keys().len() - i,
        {
            if str_eq(self.keys[i].as_str(), k) {
                return Some(i);
            }
            i += 1;
        }
        None
    }

    /// Whether key `k` is present.
    pub fn contains(&self, k: &str) -> (r: bool)
        requires
            self.wf(),
        ensures
            r == self.spec_contains(k@),
    {
        self.index_of(k).is_some()
    }

    /// The key at position `i`.
    pub fn key_at(&self, i: usize) -> (r: &String)
        requires
            self.wf(),
            i < self.spec_len(),
        ensures
            r@ == self.spec_keys()[i as int],
    {
        &self.keys[i]
    }

    /// The value at position `i`.
    pub fn val_at(&self, i: usize) -> (r: &V)
        requires
            self.wf(),
            i < self.spec_len(),
        ensures
            *r == self.spec_vals()[i as int],
    {
        &self.vals[i]
    }

    /// Borrows the value under key `k`.
    pub fn get(&self, k: &str) -> (r: Option<&V>)
        requires
            self.wf(),
        ensures
            match r {
                Some(v) => {
                    &&& self.spec_index_of(k@) is Some
                    &&& *v == self.spec_vals()[self.spec_index_of(k@).unwrap()]
                },
                None => self.spec_index_of(k@) is None,
            },
    {
        match self.index_of(k) {
            Some(i) => {
                proof {
                    lemma_find_key(self.spec_keys(), k@, 0);
                }
                Some(&self.vals[i])
            },
            None => None,
        }
    }

    /// Replaces the value at position `i`, returning the previous one.
    pub fn replace_at(&mut self, i: usize, v: V) -> (prev: V)
        requires
            old(self).wf(),
            i < old(self).spec_len(),
        ensures
            final(self).wf(),
            final(self).spec_keys() == old(self).spec_keys(),
            final(self).spec_vals() == old(self).spec_vals().update(i as int, v),
            prev == old(self).spec_vals()[i as int],
    {
        let mut v = v;
        self.vals.set_and_swap(i, &mut v);
        proof {
            assert(self.spec_keys() =~= old(self).spec_keys());
        }
        v
    }

    /// Binds `k` to `v`: replaces the value when the key is present, else
    /// appends the pair. Returns the previous value, if any.
    pub fn insert(&mut self, k: &str, v: V) -> (prev: Option<V>)
        requires
            old(self).wf(),
        ensures
            final(self).wf(),
            final(self).spec_get(k@) == Some(v),
            forall|k2: Seq<char>|
                k2 != k@ ==> #[trigger] final(self).spec_get(k2) == old(self).spec_get(k2),
            prev == old(self).spec_get(k@),
            match old(self).spec_index_of(k@) {
                Some(i) => {
                    &&& final(self).spec_keys() == old(self).spec_keys()
                    &&& final(self).spec_vals() == old(self).spec_vals().update(i, v)
                },
                None => {
                    &&& final(self).spec_keys() == old(self).spec_keys().push(k@)
                    &&& final(self).spec_vals() == old(self).spec_vals().push(v)
                },
            },
    {
        proof {
            lemma_find_key(old(self).spec_keys(), k@, 0);
        }
        match self.index_of(k) {
            Some(i) => {
                proof {
                    lemma_find_key(self.spec_keys(), k@, 0);
                }
                let prev = self.replace_at(i, v);
                proof {
                    assert(self.spec_index_of(k@) == old(self).spec_index_of(k@));
                    assert(self.spec_get(k@) == Some(v));
                    KvList::lemma_frame_update(*old(self), *self, k@, i as int);
                }
                Some(prev)
            },
            None => {
                let ghost prior = *self;
                self.keys.push(k.to_owned());
                self.vals.push(v);
                proof {
                    assert(self.spec_keys() =~= prior.spec_keys().push(k@));
                    lemma_find_key(prior.spec_keys(), k@, 0);
                    assert forall|i: int, j: int|
                        0 <= i < j < self.spec_keys().len() implies self.spec_keys()[i]
                        != self.spec_keys()[j] by {
                        if j < prior.spec_keys().len() {
                            assert(prior.spec_keys()[i] != prior.spec_keys()[j]);
                        } else {
                            assert(prior.spec_keys()[i] != k@);
                        }
                    }
                    lemma_find_push(
                        prior.spec_keys(),
                        self.spec_keys(),
                        k@,
                        k@,
                        0,
                    );
                    assert(self.spec_get(k@) == Some(v));
                    KvList::lemma_frame_push(prior, *self, k@);
                }
                None
            },
        }
    }

    /// Removes key `k` and its value, keeping the order of the rest;
    /// returns the removed value, if any.
    pub fn remove(&mut self, k: &str) -> (prev: Option<V>)
        requires
            old(self).wf(),
        ensures
            final(self).wf(),
            final(self).spec_get(k@) is None,
            forall|k2: Seq<char>|
                k2 != k@ ==> #[trigger] final(self).spec_get(k2) == old(self).spec_get(k2),
            prev == old(self).spec_get(k@),
            match old(self).spec_index_of(k@) {
                Some(i) => {
                    &&& final(self).spec_keys() == old(self).spec_keys().remove(i)
                    &&& final(self).spec_vals() == old(self).spec_vals().remove(i)
                },
                None => *final(self) == *old(self),
            },
    {
        match self.index_of(k) {
            Some(i) => {
                proof {
                    lemma_find_key(self.spec_keys(), k@, 0);
                }
                let ghost prior = *self;
                let _ = self.keys.remove(i);
                let v = self.vals.remove(i);
                proof {
                    assert(self.spec_keys() =~= prior.spec_keys().remove(i as int));
                    assert forall|a: int, b: int|
                        0 <= a < b < self.spec_keys().len() implies self.spec_keys()[a]
                        != self.spec_keys()[b] by {
                        let pa = if a < i {
                            a
                        } else {
                            a + 1
                        };
                        let pb = if b < i {
                            b
                        } else {
                            b + 1
                        };
                        assert(prior.spec_keys()[pa] != prior.spec_keys()[pb]);
                    }
                    self.lemma_get_characterization(k@);
                    assert forall|j: int|
                        0 <= j < self.spec_len() implies #[trigger] self.spec_keys()[j] != k@ by {
                        let pj = if j < i {
                            j
                        } else {
                            j + 1
                        };
                        assert(prior.spec_keys()[pj] == self.spec_keys()[j]);
                        if pj != i as int {
                            assert(prior.spec_keys()[pj] != prior.spec_keys()[i as int]);
                        }
                    }
                    assert(self.spec_get(k@) is None);
                    KvList::lemma_frame_remove(prior, *self, k@, i as int);
                }
                Some(v)
            },
            None => None,
        }
    }

    proof fn lemma_frame_update(pre: KvList<V>, post: KvList<V>, k: Seq<char>, i: int)
        requires
            pre.wf(),
            post.wf(),
            0 <= i < pre.spec_len(),
            pre.spec_keys()[i] == k,
            post.spec_keys() == pre.spec_keys(),
            post.spec_vals().len() == pre.spec_vals().len(),
            forall|j: int|
                0 <= j < pre.spec_vals().len() && j != i ==> post.spec_vals()[j]
                    == pre.spec_vals()[j],
        ensures
            forall|k2: Seq<char>|
                k2 != k ==> #[trigger] post.spec_get(k2) == pre.spec_get(k2),
    {
        assert forall|k2: Seq<char>| k2 != k implies #[trigger] post.spec_get(k2) == pre.spec_get(
            k2,
        ) by {
            lemma_find_key(pre.spec_keys(), k2, 0);
            assert(post.spec_index_of(k2) == pre.spec_index_of(k2));
            if pre.spec_index_of(k2) is Some {
                let p = pre.spec_index_of(k2).unwrap();
                assert(pre.spec_keys()[p] == k2);
                assert(p != i);
            }
        }
    }

    proof fn lemma_frame_push(pre: KvList<V>, post: KvList<V>, k: Seq<char>)
        requires
            pre.wf(),
            post.wf(),
            post.spec_keys() == pre.spec_keys().push(k),
            post.spec_vals().len() == pre.spec_vals().len() + 1,
            forall|j: int|
                0 <= j < pre.spec_vals().len() ==> post.spec_vals()[j] == pre.spec_vals()[j],
        ensures
            forall|k2: Seq<char>|
                k2 != k ==> #[trigger] post.spec_get(k2) == pre.spec_get(k2),
    {
        assert forall|k2: Seq<char>| k2 != k implies #[trigger] post.spec_get(k2) == pre.spec_get(
            k2,
        ) by {
            lemma_find_push(pre.spec_keys(), post.spec_keys(), k, k2, 0);
            lemma_find_key(pre.spec_keys(), k2, 0);
        }
    }

    proof fn lemma_frame_remove(pre: KvList<V>, post: KvList<V>, k: Seq<char>, i: int)
        requires
            pre.wf(),
            post.wf(),
            0 <= i < pre.spec_len(),
            pre.spec_keys()[i] == k,
            post.spec_keys() == pre.spec_keys().remove(i),
            post.spec_vals() == pre.spec_vals().remove(i),
        ensures
            forall|k2: Seq<char>|
                k2 != k ==> #[trigger] post.spec_get(k2) == pre.spec_get(k2),
    {
        assert forall|k2: Seq<char>| k2 != k implies #[trigger] post.spec_get(k2) == pre.spec_get(
            k2,
        ) by {
            pre.lemma_get_characterization(k2);
            post.lemma_get_characterization(k2);
            match pre.spec_get(k2) {
                Some(v) => {
                    let j2 = choose|j2: int|
                        0 <= j2 < pre.spec_len() && #[trigger] pre.spec_keys()[j2] == k2
                            && pre.spec_vals()[j2] == v;
                    let j = if j2 < i {
                        j2
                    } else {
                        j2 - 1
                    };
                    assert(post.spec_keys()[j] == k2 && post.spec_vals()[j] == v);
                    assert(post.spec_get(k2) == Some(v));
                },
                None => {
                    if post.spec_get(k2) is Some {
                        let v = post.spec_get(k2).unwrap();
                        let j = choose|j: int|
                            0 <= j < post.spec_len() && #[trigger] post.spec_keys()[j] == k2
                                && post.spec_vals()[j] == v;
                        let pj = if j < i {
                            j
                        } else {
                            j + 1
                        };
                        assert(pre.spec_keys()[pj] == k2);
                    }
                },
            }
        }
    }

    /// A present key's position indexes a real entry.
    pub broadcast proof fn lemma_index_in_range(&self, k: Seq<char>)
        requires
            self.wf(),
            #[trigger] self.spec_index_of(k) is Some,
        ensures
            0 <= self.spec_index_of(k).unwrap() < self.spec_len(),
            self.spec_keys()[self.spec_index_of(k).unwrap()] == k,
    {
        lemma_find_key(self.spec_keys(), k, 0);
    }
}

} // verus!
