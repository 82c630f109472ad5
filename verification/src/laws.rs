//! Laws of the sorted-insert operations, stated over the buffer's
//! mathematical model.

use crate::order::lemma_cmp_flip;
use crate::order::lemma_cmp_greater_trans;
use crate::order::lemma_cmp_less_eq_trans;
use crate::order::lemma_cmp_less_trans;
use crate::order::lemma_cmp_refl;
use crate::search::sorted_by_key;
use crate::search::sorted_insert_outcome;
use core::cmp::Ordering;
use vstd::laws_cmp::obeys_cmp;
use vstd::prelude::*;
use vstd::std_specs::cmp::OrdSpec;

verus! {

/// Inserting an element that carries `key` at the position a sorted lookup
/// determined — all keys to the left below `key`, all keys to the right
/// above it — keeps the contents sorted.
pub proof fn lemma_insert_preserves_sorted<T, K: Ord>(
    s: Seq<T>,
    kf: spec_fn(T) -> K,
    key: K,
    v: T,
    i: int,
)
    requires
        obeys_cmp::<K>(),
        sorted_by_key(s, kf),
        0 <= i <= s.len(),
        forall|m: int| 0 <= m < i ==> (#[trigger] kf(s[m])).cmp_spec(&key) == Ordering::Less,
        forall|m: int|
            i <= m < s.len() ==> (#[trigger] kf(s[m])).cmp_spec(&key) == Ordering::Greater,
        kf(v).cmp_spec(&key) == Ordering::Equal,
    ensures
        sorted_by_key(s.insert(i, v), kf),
{
    s.insert_ensures(i, v);
    let t = s.insert(i, v);
    assert forall|p: int, q: int|
        #![trigger kf(t[p]), kf(t[q])]
        0 <= p <= q < t.len() implies kf(t[p]).cmp_spec(&kf(t[q])) != Ordering::Greater by {
        lemma_cmp_flip(kf(v), key);
        if p < i && q < i {
            assert(kf(s[p]).cmp_spec(&kf(s[q])) != Ordering::Greater);
        } else if p < i && q == i {
            lemma_cmp_less_eq_trans(kf(s[p]), key, kf(v));
        } else if p < i && q > i {
            lemma_cmp_flip(kf(s[q - 1]), key);
            lemma_cmp_less_trans(kf(s[p]), key, kf(s[q - 1]));
        } else if p == i && q == i {
            lemma_cmp_refl(kf(v));
        } else if p == i && q > i {
            lemma_cmp_flip(kf(s[q - 1]), key);
            lemma_cmp_less_trans(kf(v), key, kf(s[q - 1]));
        } else {
            assert(kf(s[p - 1]).cmp_spec(&kf(s[q - 1])) != Ordering::Greater);
        }
    }
}

/// Looking the same key up twice inserts at most once: once a sorted
/// lookup-or-insert for `key` has run — inserting an element `c` that
/// carries the key if the key was absent — a second lookup-or-insert for
/// the same key finds an element carrying it and changes nothing.  If no
/// element of `pre` carried the key, both answers point at the single
/// inserted element.
pub proof fn lemma_sorted_insert_idempotent<T, K: Ord>(
    pre: Seq<T>,
    post: Seq<T>,
    post2: Seq<T>,
    kf: spec_fn(T) -> K,
    key: K,
    c: T,
    i: int,
    j: int,
)
    requires
        obeys_cmp::<K>(),
        sorted_insert_outcome(pre, post, kf, key, i),
        post != pre ==> post == pre.insert(i, c) && kf(c).cmp_spec(&key) == Ordering::Equal,
        sorted_insert_outcome(post, post2, kf, key, j),
    ensures
        post2 == post,
        0 <= j < post.len(),
        kf(post[j]).cmp_spec(&key) == Ordering::Equal,
        (forall|m: int|
            0 <= m < pre.len() ==> (#[trigger] kf(pre[m])).cmp_spec(&key) != Ordering::Equal)
            ==> j == i,
{
    if exists|m: int| 0 <= m < pre.len() && (#[trigger] kf(pre[m])).cmp_spec(&key)
        == Ordering::Equal {
        assert(post == pre);
        assert(kf(post[i]).cmp_spec(&key) == Ordering::Equal);
    } else {
        assert(post.len() == pre.len() + 1);
        pre.insert_ensures(i, c);
        assert(kf(post[i]).cmp_spec(&key) == Ordering::Equal);
    }
    if !(exists|m: int| 0 <= m < post.len() && (#[trigger] kf(post[m])).cmp_spec(&key)
        == Ordering::Equal) {
        assert(kf(post[i]).cmp_spec(&key) == Ordering::Equal);
        assert(false);
    }
    if forall|m: int|
        0 <= m < pre.len() ==> (#[trigger] kf(pre[m])).cmp_spec(&key) != Ordering::Equal {
        assert(post == pre.insert(i, c));
        pre.insert_ensures(i, c);
        if j < i {
            assert(kf(post[j]) == kf(pre[j]));
        } else if j > i {
            assert(kf(post[j]) == kf(pre[j - 1]));
        }
    }
}

} // verus!
