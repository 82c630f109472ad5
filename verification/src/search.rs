//! Sorted lookup-or-insert.
//!
//! The buffer's contents can be kept sorted in ascending order of a
//! caller-chosen key.  `binary_search_insert_by_key_with` locates a key by
//! binary search; if an element with that key is present it returns its
//! index and inserts nothing (duplicate keys are never created), otherwise
//! it inserts a freshly created element at the position that keeps the
//! ascending order and returns that position.
//!
//! The key is computed by a caller-supplied closure, so the contracts speak
//! of it relationally: `key_fn_models(f, kf)` says the closure `f` behaves
//! as the mathematical function `kf`, and the exact clauses hold for every
//! such `kf`.  Sortedness is assumed, not verified: on unsorted contents the
//! operations still return some in-range index and insert at most one
//! element, but the resulting order is unspecified.

use crate::buffer::ScratchBuffer;
use crate::item::ScratchItem;
use crate::laws::lemma_insert_preserves_sorted;
use crate::order::lemma_cmp_flip;
use crate::order::lemma_cmp_greater_trans;
use crate::order::lemma_cmp_less_trans;
use crate::order::lemma_obeys_cmp_unpack;
use core::cmp::Ordering;
use vstd::laws_cmp::obeys_cmp;
use vstd::prelude::*;
use vstd::std_specs::cmp::OrdSpec;

verus! {

/// The key closure `f` accepts every element of `s` as its argument.
pub open spec fn key_fn_total<T, K, F: Fn(&T) -> K>(f: F, s: Seq<T>) -> bool {
    forall|m: int| 0 <= m < s.len() ==> #[trigger] call_requires(f, (&s[m],))
}

/// The key closure `f` behaves as the mathematical key function `kf`: any
/// value `f` can return for an element `t` is `kf(t)`.
pub open spec fn key_fn_models<T, K, F: Fn(&T) -> K>(f: F, kf: spec_fn(T) -> K) -> bool {
    forall|t: T, k: K| #[trigger] call_ensures(f, (&t,), k) ==> k == kf(t)
}

/// The elements of `s` are in ascending order of their keys under `kf`
/// (adjacent equal keys allowed).
pub open spec fn sorted_by_key<T, K: Ord>(s: Seq<T>, kf: spec_fn(T) -> K) -> bool {
    forall|p: int, q: int|
        #![trigger kf(s[p]), kf(s[q])]
        0 <= p <= q < s.len() ==> kf(s[p]).cmp_spec(&kf(s[q])) != Ordering::Greater
}

/// What a sorted lookup-or-insert for `key` does to sorted contents `pre`,
/// leaving `post` and answering index `i`: if some element already carries
/// the key, nothing changes and `i` points at such an element; otherwise
/// `post` is one element longer and `i` is the position whose left
/// neighbours' keys are all below `key` and whose right neighbours' keys are
/// all above it.
pub open spec fn sorted_insert_outcome<T, K: Ord>(
    pre: Seq<T>,
    post: Seq<T>,
    kf: spec_fn(T) -> K,
    key: K,
    i: int,
) -> bool {
    if exists|m: int| 0 <= m < pre.len() && (#[trigger] kf(pre[m])).cmp_spec(&key)
        == Ordering::Equal {
        &&& post == pre
        &&& 0 <= i < pre.len()
        &&& kf(pre[i]).cmp_spec(&key) == Ordering::Equal
    } else {
        &&& 0 <= i <= pre.len()
        &&& post.len() == pre.len() + 1
        &&& forall|m: int| 0 <= m < i ==> (#[trigger] kf(pre[m])).cmp_spec(&key) == Ordering::Less
        &&& forall|m: int|
            i <= m < pre.len() ==> (#[trigger] kf(pre[m])).cmp_spec(&key) == Ordering::Greater
    }
}

impl<T: ScratchItem> ScratchBuffer<T> {
    /// Binary search for `key` among the keys that `get_key` gives the
    /// elements.  `Ok(i)` means element `i` answered `Equal`; `Err(i)` is a
    /// position to insert at.  The exact clauses hold when the contents are
    /// sorted under a function `kf` that `get_key` behaves as.
    fn search_by_key<K: Ord, F: Fn(&T) -> K>(&self, key: &K, get_key: F) -> (r: Result<
        usize,
        usize,
    >)
        requires
            self.wf(),
            obeys_cmp::<K>(),
            key_fn_total(get_key, self@),
        ensures
            match r {
                Ok(i) => i < self@.len() && exists|k: K|
                    #[trigger] call_ensures(get_key, (&self@[i as int],), k) && k.cmp_spec(key)
                        == Ordering::Equal,
                Err(i) => i <= self@.len(),
            },
            forall|kf: spec_fn(T) -> K|
                #[trigger] key_fn_models(get_key, kf) && sorted_by_key(self@, kf) ==> match r {
                    Ok(i) => kf(self@[i as int]).cmp_spec(key) == Ordering::Equal,
                    Err(i) => {
                        &&& forall|m: int|
                            0 <= m < i ==> (#[trigger] kf(self@[m])).cmp_spec(key) == Ordering::Less
                        &&& forall|m: int|
                            i <= m < self@.len() ==> (#[trigger] kf(self@[m])).cmp_spec(key)
                                == Ordering::Greater
                    },
                },
    {
        proof {
            lemma_obeys_cmp_unpack::<K>();
        }
        let n = self.len();
        let mut lo: usize = 0;
        let mut hi: usize = n;
        while lo < hi
            invariant
                lo <= hi <= n,
                n == self@.len(),
                self.wf(),
                obeys_cmp::<K>(),
                K::obeys_cmp_spec(),
                key_fn_total(get_key, self@),
                forall|kf: spec_fn(T) -> K|
                    #[trigger] key_fn_models(get_key, kf) && sorted_by_key(self@, kf) ==> {
                        &&& forall|m: int|
                            0 <= m < lo ==> (#[trigger] kf(self@[m])).cmp_spec(key)
                                == Ordering::Less
                        &&& forall|m: int|
                            hi <= m < n ==> (#[trigger] kf(self@[m])).cmp_spec(key)
                                == Ordering::Greater
                    },
            decreases hi - lo,
        {
            let mid = lo + (hi - lo) / 2;
            let elem = self.get(mid);
            let k = get_key(&elem);
            let ord = k.cmp(key);
            match ord {
                Ordering::Less => {
                    proof {
                        assert forall|kf: spec_fn(T) -> K|
                            #[trigger] key_fn_models(get_key, kf) && sorted_by_key(self@, kf)
                                implies {
                            &&& forall|m: int|
                                0 <= m < mid + 1 ==> (#[trigger] kf(self@[m])).cmp_spec(key)
                                    == Ordering::Less
                            &&& forall|m: int|
                                hi <= m < n ==> (#[trigger] kf(self@[m])).cmp_spec(key)
                                    == Ordering::Greater
                        } by {
                            assert(k == kf(self@[mid as int]));
                            assert forall|m: int| 0 <= m < mid + 1 implies (#[trigger] kf(
                                self@[m],
                            )).cmp_spec(key) == Ordering::Less by {
                                assert(kf(self@[m]).cmp_spec(&kf(self@[mid as int]))
                                    != Ordering::Greater);
                                lemma_cmp_less_trans(kf(self@[m]), kf(self@[mid as int]), *key);
                            }
                        }
                    }
                    lo = mid + 1;
                },
                Ordering::Greater => {
                    proof {
                        assert forall|kf: spec_fn(T) -> K|
                            #[trigger] key_fn_models(get_key, kf) && sorted_by_key(self@, kf)
                                implies {
                            &&& forall|m: int|
                                0 <= m < lo ==> (#[trigger] kf(self@[m])).cmp_spec(key)
                                    == Ordering::Less
                            &&& forall|m: int|
                                mid <= m < n ==> (#[trigger] kf(self@[m])).cmp_spec(key)
                                    == Ordering::Greater
                        } by {
                            assert(k == kf(self@[mid as int]));
                            assert forall|m: int| mid <= m < n implies (#[trigger] kf(
                                self@[m],
                            )).cmp_spec(key) == Ordering::Greater by {
                                assert(kf(self@[mid as int]).cmp_spec(&kf(self@[m]))
                                    != Ordering::Greater);
                                lemma_cmp_flip(kf(self@[mid as int]), kf(self@[m]));
                                lemma_cmp_greater_trans(kf(self@[m]), kf(self@[mid as int]), *key);
                            }
                        }
                    }
                    hi = mid;
                },
                Ordering::Equal => {
                    proof {
                        assert(call_ensures(get_key, (&self@[mid as int],), k));
                    }
                    return Ok(mid);
                },
            }
        }
        Err(lo)
    }

    /// Treats the contents as sorted ascending by the key that `get_key`
    /// computes, and looks `key` up by binary search.  If an element with
    /// this key exists, returns its index and inserts nothing; otherwise
    /// calls `create`, inserts its result at the index that keeps the
    /// ascending order, and returns that index.  Whether the contents really
    /// are sorted is assumed, not checked: if they are not, the index is
    /// still in range and at most one element is inserted, but the order
    /// afterwards is unspecified.
    pub fn binary_search_insert_by_key_with<K: Ord, F: Fn(&T) -> K, C: FnOnce() -> T>(
        &mut self,
        key: &K,
        get_key: F,
        create: C,
    ) -> (i: usize)
        requires
            old(self).wf(),
            obeys_cmp::<K>(),
            key_fn_total(get_key, old(self)@),
            call_requires(create, ()),
            old(self).used_bytes() + T::width() <= usize::MAX / 2 + 1,
        ensures
            final(self).wf(),
            i <= old(self)@.len(),
            (final(self)@ == old(self)@ && i < old(self)@.len() && exists|k: K|
                #[trigger] call_ensures(get_key, (&old(self)@[i as int],), k) && k.cmp_spec(key)
                    == Ordering::Equal) || (exists|c: T|
                #[trigger] call_ensures(create, (), c) && final(self)@ == old(self)@.insert(
                    i as int,
                    c,
                )),
            forall|kf: spec_fn(T) -> K|
                #[trigger] key_fn_models(get_key, kf) && sorted_by_key(old(self)@, kf)
                    ==> sorted_insert_outcome(old(self)@, final(self)@, kf, *key, i as int),
            forall|kf: spec_fn(T) -> K|
                #[trigger] key_fn_models(get_key, kf) && sorted_by_key(old(self)@, kf) && (
                forall|c: T|
                    #[trigger] call_ensures(create, (), c) ==> kf(c).cmp_spec(key)
                        == Ordering::Equal) ==> sorted_by_key(final(self)@, kf),
    {
        let ghost pre = *self;
        let r = self.search_by_key(key, get_key);
        match r {
            Ok(i) => {
                proof {
                    assert forall|kf: spec_fn(T) -> K|
                        #[trigger] key_fn_models(get_key, kf) && sorted_by_key(pre@, kf)
                            implies sorted_insert_outcome(pre@, self@, kf, *key, i as int) by {
                        assert(kf(pre@[i as int]).cmp_spec(key) == Ordering::Equal);
                    }
                }
                i
            },
            Err(i) => {
                let c = create();
                let ghost found = *self;
                self.insert(i, c);
                proof {
                    assert forall|kf: spec_fn(T) -> K|
                        #[trigger] key_fn_models(get_key, kf) && sorted_by_key(pre@, kf)
                            implies sorted_insert_outcome(pre@, self@, kf, *key, i as int) by {
                        assert forall|m: int|
                            0 <= m < pre@.len() implies (#[trigger] kf(pre@[m])).cmp_spec(key)
                            != Ordering::Equal by {
                            if m < i {
                                assert(kf(pre@[m]).cmp_spec(key) == Ordering::Less);
                            } else {
                                assert(kf(pre@[m]).cmp_spec(key) == Ordering::Greater);
                            }
                        }
                    }
                    assert forall|kf: spec_fn(T) -> K|
                        #[trigger] key_fn_models(get_key, kf) && sorted_by_key(pre@, kf) && (
                        forall|c2: T|
                            #[trigger] call_ensures(create, (), c2) ==> kf(c2).cmp_spec(key)
                                == Ordering::Equal) implies sorted_by_key(self@, kf) by {
                        assert(kf(c).cmp_spec(key) == Ordering::Equal);
                        lemma_insert_preserves_sorted(pre@, kf, *key, c, i as int);
                    }
                }
                i
            },
        }
    }

    /// As [`Self::binary_search_insert_by_key_with`], inserting the
    /// element type's default value when the key is not found.
    pub fn binary_search_insert_by_key<K: Ord, F: Fn(&T) -> K>(
        &mut self,
        key: &K,
        get_key: F,
    ) -> (i: usize) where T: Default
        requires
            old(self).wf(),
            obeys_cmp::<K>(),
            key_fn_total(get_key, old(self)@),
            old(self).used_bytes() + T::width() <= usize::MAX / 2 + 1,
        ensures
            final(self).wf(),
            i <= old(self)@.len(),
            (final(self)@ == old(self)@ && i < old(self)@.len() && exists|k: K|
                #[trigger] call_ensures(get_key, (&old(self)@[i as int],), k) && k.cmp_spec(key)
                    == Ordering::Equal) || (exists|c: T|
                final(self)@ == old(self)@.insert(i as int, c)),
            forall|kf: spec_fn(T) -> K|
                #[trigger] key_fn_models(get_key, kf) && sorted_by_key(old(self)@, kf)
                    ==> sorted_insert_outcome(old(self)@, final(self)@, kf, *key, i as int),
    {
        self.binary_search_insert_by_key_with(key, get_key, || T::default())
    }
}

} // verus!
