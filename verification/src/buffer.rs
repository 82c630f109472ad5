//! The buffer itself: one owned, growable, untyped byte store, viewed as a
//! sequence of the active element type.
//!
//! A `ScratchBuffer<T>` holds `bytes` (the allocation, `capacity_bytes()`
//! long) and `len_bytes` (the bytes logically occupied).  Element `i` of the
//! typed view lives in the byte block `[i * width, (i + 1) * width)`; the
//! view decodes those blocks back to values.  Switching the element type
//! keeps the allocation and resets `len_bytes` to zero: the old bytes are
//! forgotten, not zeroed, and are never visible as elements of the new type.

use crate::growth::is_min_pow2_at_least;
use crate::growth::is_pow2;
use crate::growth::next_pow2;
use crate::item::ScratchItem;
use core::marker::PhantomData;
use vstd::arithmetic::div_mod::lemma_fundamental_div_mod;
use vstd::arithmetic::div_mod::lemma_fundamental_div_mod_converse;
use vstd::prelude::*;

verus! {

/// A growable, type-erased scratch buffer, currently viewed as holding
/// elements of type `T`.
pub struct ScratchBuffer<T = u8> {
    bytes: Vec<u8>,
    len_bytes: usize,
    marker: PhantomData<T>,
}

impl ScratchBuffer {
    /// A new buffer: empty, with no allocation, viewed as holding bytes
    /// until another element type is chosen.
    pub fn new() -> (r: Self)
        ensures
            r.wf(),
            r@ == Seq::<u8>::empty(),
            r.used_bytes() == 0,
            r.capacity_bytes() == 0,
    {
        let r = ScratchBuffer { bytes: Vec::new(), len_bytes: 0, marker: PhantomData };
        proof {
            assert(r@ =~= Seq::<u8>::empty());
        }
        r
    }
}

impl<T: ScratchItem> ScratchBuffer<T> {
    /// Bytes logically occupied by elements.
    pub closed spec fn used_bytes(self) -> nat {
        self.len_bytes as nat
    }

    /// Bytes physically allocated.
    pub closed spec fn capacity_bytes(self) -> nat {
        self.bytes@.len()
    }

    /// The byte block that element `i` is stored in.
    spec fn slot(self, i: int) -> Seq<u8> {
        self.bytes@.subrange(i * (T::width() as int), i * (T::width() as int) + (T::width() as int))
    }

    /// The buffer's invariant: the occupied bytes fit in the allocation, the
    /// allocation is absent or a power of two long, and the occupied bytes
    /// are a whole number of elements.
    pub closed spec fn wf(self) -> bool {
        &&& self.used_bytes() <= self.capacity_bytes()
        &&& (self.capacity_bytes() == 0 || is_pow2(self.capacity_bytes()))
        &&& self.used_bytes() % T::width() == 0
    }

    /// Element `i` occupies bytes inside the occupied region.
    proof fn lemma_element_range(self, i: int)
        requires
            self.wf(),
            0 <= i < self@.len(),
        ensures
            0 <= i * (T::width() as int),
            i * (T::width() as int) + (T::width() as int) <= self.used_bytes(),
    {
        T::lemma_width();
        let w = T::width() as int;
        let u = self.len_bytes as int;
        lemma_fundamental_div_mod(u, w);
        let n = u / w;
        assert(u == n * w) by (nonlinear_arith)
            requires
                u == w * (u / w) + u % w,
                u % w == 0,
                n == u / w,
        ;
        assert(0 <= i * w && i * w + w <= n * w) by (nonlinear_arith)
            requires
                w >= 1,
                0 <= i < n,
        ;
    }

    /// Two buffers with the same occupied length and the same occupied bytes
    /// have the same view.
    proof fn lemma_view_congruence(self, other: Self)
        requires
            self.used_bytes() <= self.capacity_bytes(),
            self.wf(),
            other.len_bytes == self.len_bytes,
            other.used_bytes() <= other.capacity_bytes(),
            forall|k: int|
                0 <= k < self.used_bytes() ==> self.bytes@[k] == other.bytes@[k],
        ensures
            self@ == other@,
    {
        T::lemma_width();
        assert forall|i: int| 0 <= i < self@.len() implies self@[i] == other@[i] by {
            self.lemma_element_range(i);
            assert(self.slot(i) =~= other.slot(i));
        }
        assert(self@ =~= other@);
    }

    /// Clears the buffer and hands the same allocation over to a view of a
    /// different element type `U`.  The logical contents are discarded — the
    /// old bytes are only forgotten, never exposed as `U` elements — and the
    /// allocation is kept for reuse.
    pub fn clear_and_use_as<U: ScratchItem>(self) -> (r: ScratchBuffer<U>)
        requires
            self.wf(),
        ensures
            r.wf(),
            r@ == Seq::<U>::empty(),
            r.used_bytes() == 0,
            r.capacity_bytes() == self.capacity_bytes(),
    {
        let r = ScratchBuffer { bytes: self.bytes, len_bytes: 0, marker: PhantomData };
        proof {
            U::lemma_width();
            assert(0nat / U::width() == 0) by (nonlinear_arith)
                requires
                    U::width() >= 1,
            ;
            assert(r@ =~= Seq::<U>::empty());
        }
        r
    }

    /// The number of elements currently held.
    pub fn len(&self) -> (n: usize)
        requires
            self.wf(),
        ensures
            n == self@.len(),
    {
        proof {
            T::lemma_width();
        }
        self.len_bytes / T::item_width()
    }

    /// Whether the buffer holds no elements.
    pub fn is_empty(&self) -> (r: bool)
        requires
            self.wf(),
        ensures
            r == (self@.len() == 0),
    {
        proof {
            T::lemma_width();
            let w = T::width() as int;
            let u = self.len_bytes as int;
            assert((u / w == 0) <==> (u == 0)) by (nonlinear_arith)
                requires
                    w >= 1,
                    0 <= u,
                    u % w == 0,
            ;
        }
        self.len_bytes == 0
    }

    /// Grows the allocation, if needed, so that `additional` more elements
    /// fit.  The contents are unchanged; a growth event picks the smallest
    /// power of two that holds the bytes then needed.
    pub fn reserve(&mut self, additional: usize)
        requires
            old(self).wf(),
            old(self).used_bytes() + additional * T::width() <= usize::MAX / 2 + 1,
        ensures
            final(self).wf(),
            final(self)@ == old(self)@,
            final(self).used_bytes() == old(self).used_bytes(),
            final(self).capacity_bytes() >= old(self).used_bytes() + additional * T::width(),
            old(self).capacity_bytes() >= old(self).used_bytes() + additional * T::width()
                ==> final(self).capacity_bytes() == old(self).capacity_bytes(),
            old(self).capacity_bytes() < old(self).used_bytes() + additional * T::width()
                ==> is_min_pow2_at_least(
                    final(self).capacity_bytes(),
                    (old(self).used_bytes() + additional * T::width()) as nat,
                ),
    {
        let w = T::item_width();
        let needed = self.len_bytes + additional * w;
        if needed > self.bytes.len() {
            let new_cap = next_pow2(needed);
            let ghost pre = *self;
            self.bytes.resize(new_cap, 0u8);
            proof {
                assert forall|k: int| 0 <= k < pre.used_bytes() implies pre.bytes@[k]
                    == self.bytes@[k] by {
                    assert(self.bytes@.subrange(0, pre.bytes@.len() as int)[k] == self.bytes@[k]);
                }
                pre.lemma_view_congruence(*self);
            }
        }
    }

    /// Reads the element stored at byte position `pos`.
    fn read_slot(&self, pos: usize) -> (r: T)
        requires
            pos + T::width() <= self.bytes@.len(),
        ensures
            r == T::decode(self.bytes@.subrange(pos as int, pos + T::width())),
    {
        proof {
            T::lemma_width();
        }
        let w = T::item_width();
        let cap = self.bytes.len();
        let s = vstd::slice::slice_subrange(self.bytes.as_slice(), pos, pos + w);
        T::decode_exec(s)
    }

    /// Writes `value`'s encoding at byte position `pos`, leaving every other
    /// byte as it was.
    fn write_slot(&mut self, pos: usize, value: T)
        requires
            pos + T::width() <= old(self).bytes@.len(),
        ensures
            final(self).len_bytes == old(self).len_bytes,
            final(self).bytes@.len() == old(self).bytes@.len(),
            final(self).bytes@.subrange(pos as int, pos + T::width()) == value.encode(),
            forall|k: int|
                0 <= k < old(self).bytes@.len() && !(pos <= k < pos + T::width())
                    ==> final(self).bytes@[k] == old(self).bytes@[k],
    {
        proof {
            T::lemma_width();
            value.lemma_codec();
        }
        let w = T::item_width();
        let b = value.encode_exec();
        let cap = self.bytes.len();
        let mut j: usize = 0;
        while j < w
            invariant
                j <= w,
                cap == self.bytes@.len(),
                w == T::width(),
                b@ == value.encode(),
                b@.len() == w,
                pos + w <= self.bytes@.len(),
                self.bytes@.len() == old(self).bytes@.len(),
                self.len_bytes == old(self).len_bytes,
                forall|k: int|
                    0 <= k < self.bytes@.len() && !(pos <= k < pos + j)
                        ==> self.bytes@[k] == old(self).bytes@[k],
                forall|k: int| pos <= k < pos + j ==> self.bytes@[k] == b@[k - pos],
            decreases w - j,
        {
            let byte = b[j];
            self.bytes[pos + j] = byte;
            j += 1;
        }
        proof {
            assert(self.bytes@.subrange(pos as int, pos + T::width()) =~= value.encode());
        }
    }

    /// The element at `index`.
    pub fn get(&self, index: usize) -> (r: T)
        requires
            self.wf(),
            index < self@.len(),
        ensures
            r == self@[index as int],
    {
        proof {
            T::lemma_width();
            self.lemma_element_range(index as int);
        }
        let w = T::item_width();
        self.read_slot(index * w)
    }

    /// Overwrites the element at `index` with `value`.
    pub fn set_at(&mut self, index: usize, value: T)
        requires
            old(self).wf(),
            index < old(self)@.len(),
        ensures
            final(self).wf(),
            final(self)@ == old(self)@.update(index as int, value),
            final(self).used_bytes() == old(self).used_bytes(),
            final(self).capacity_bytes() == old(self).capacity_bytes(),
    {
        proof {
            T::lemma_width();
            old(self).lemma_element_range(index as int);
        }
        let w = T::item_width();
        let ghost pre = *self;
        self.write_slot(index * w, value);
        proof {
            let wi = T::width() as int;
            value.lemma_codec();
            assert forall|i: int| 0 <= i < self@.len() implies self@[i] == pre@.update(
                index as int,
                value,
            )[i] by {
                pre.lemma_element_range(i);
                if i == index {
                    assert(self.slot(i) =~= value.encode());
                } else {
                    if i < index {
                        assert(i * wi + wi <= index * wi) by (nonlinear_arith)
                            requires
                                wi >= 1,
                                i + 1 <= index,
                        ;
                    } else {
                        assert(index * wi + wi <= i * wi) by (nonlinear_arith)
                            requires
                                wi >= 1,
                                index + 1 <= i,
                        ;
                    }
                    assert forall|k: int| i * wi <= k < i * wi + wi implies self.bytes@[k]
                        == pre.bytes@[k] by {
                        assert(!(index * wi <= k < index * wi + wi));
                    }
                    assert(self.slot(i) =~= pre.slot(i));
                }
            }
            assert(self@ =~= pre@.update(index as int, value));
        }
    }

    /// Appends `value` after the last element and returns its index.
    pub fn push(&mut self, value: T) -> (i: usize)
        requires
            old(self).wf(),
            old(self).used_bytes() + T::width() <= usize::MAX / 2 + 1,
        ensures
            final(self).wf(),
            final(self)@ == old(self)@.push(value),
            i == old(self)@.len(),
            final(self).used_bytes() == old(self).used_bytes() + T::width(),
            old(self).capacity_bytes() >= old(self).used_bytes() + T::width()
                ==> final(self).capacity_bytes() == old(self).capacity_bytes(),
            old(self).capacity_bytes() < old(self).used_bytes() + T::width()
                ==> is_min_pow2_at_least(
                    final(self).capacity_bytes(),
                    (old(self).used_bytes() + T::width()) as nat,
                ),
    {
        proof {
            T::lemma_width();
        }
        self.reserve(1);
        let w = T::item_width();
        let i = self.len_bytes / w;
        let pos = self.len_bytes;
        let ghost pre = *self;
        self.write_slot(pos, value);
        self.len_bytes = pos + w;
        proof {
            let wi = T::width() as int;
            let u = pre.len_bytes as int;
            let n = u / wi;
            lemma_fundamental_div_mod(u, wi);
            assert(u == n * wi) by (nonlinear_arith)
                requires
                    u == wi * (u / wi) + u % wi,
                    u % wi == 0,
                    n == u / wi,
            ;
            assert((n + 1) * wi == n * wi + wi) by (nonlinear_arith);
            lemma_fundamental_div_mod_converse(u + wi, wi, n + 1, 0);
            value.lemma_codec();
            assert(self@.len() == pre@.len() + 1);
            assert forall|j: int| 0 <= j < self@.len() implies self@[j] == pre@.push(value)[j] by {
                if j < pre@.len() {
                    pre.lemma_element_range(j);
                    assert forall|k: int| j * wi <= k < j * wi + wi implies self.bytes@[k]
                        == pre.bytes@[k] by {
                        assert(k < u);
                    }
                    assert(self.slot(j) =~= pre.slot(j));
                } else {
                    assert(j == n);
                    assert(self.slot(j) =~= value.encode());
                }
            }
            assert(self@ =~= pre@.push(value));
        }
        i
    }

    /// The allocation's size in bytes.
    pub fn capacity(&self) -> (r: usize)
        ensures
            r == self.capacity_bytes(),
    {
        self.bytes.len()
    }

    /// Inserts `value` at `index`, shifting the elements at `index..` one
    /// slot to the right and keeping their relative order.  `index` must be
    /// at most the current length: an out-of-range index is a caller error,
    /// which verification rules out before any mutation can happen.
    pub fn insert(&mut self, index: usize, value: T)
        requires
            old(self).wf(),
            index <= old(self)@.len(),
            old(self).used_bytes() + T::width() <= usize::MAX / 2 + 1,
        ensures
            final(self).wf(),
            final(self)@ == old(self)@.insert(index as int, value),
            final(self).used_bytes() == old(self).used_bytes() + T::width(),
            old(self).capacity_bytes() >= old(self).used_bytes() + T::width()
                ==> final(self).capacity_bytes() == old(self).capacity_bytes(),
            old(self).capacity_bytes() < old(self).used_bytes() + T::width()
                ==> is_min_pow2_at_least(
                    final(self).capacity_bytes(),
                    (old(self).used_bytes() + T::width()) as nat,
                ),
    {
        proof {
            T::lemma_width();
        }
        self.reserve(1);
        let w = T::item_width();
        let n = self.len_bytes / w;
        let ghost pre = *self;
        let ghost wi = T::width() as int;
        let ghost u = pre.len_bytes as int;
        proof {
            lemma_fundamental_div_mod(u, wi);
            assert(u == (u / wi) * wi) by (nonlinear_arith)
                requires
                    u == wi * (u / wi) + u % wi,
                    u % wi == 0,
            ;
        }
        let mut j = n;
        while j > index
            invariant
                index <= j <= n,
                w == T::width(),
                wi == w as int,
                u == pre.len_bytes as int,
                n == u / wi,
                u == n * wi,
                wi >= 1,
                pre.wf(),
                n == pre@.len(),
                self.len_bytes == pre.len_bytes,
                self.bytes@.len() == pre.bytes@.len(),
                pre.bytes@.len() >= u + wi,
                forall|k: int| 0 <= k < j * wi + wi ==> self.bytes@[k] == pre.bytes@[k],
                forall|s: int| j < s <= n ==> T::decode(#[trigger] self.slot(s)) == pre@[s - 1],
            decreases j,
        {
            proof {
                assert(j * wi <= n * wi && (j - 1) * wi + wi == j * wi) by (nonlinear_arith)
                    requires
                        wi >= 1,
                        1 <= j <= n,
                ;
            }
            let v = self.read_slot((j - 1) * w);
            let ghost mid = *self;
            proof {
                assert(mid.slot(j - 1) =~= pre.slot(j - 1));
                assert(v == pre@[j - 1]);
            }
            self.write_slot(j * w, v);
            proof {
                v.lemma_codec();
                assert forall|s: int| j - 1 < s <= n implies T::decode(#[trigger] self.slot(s))
                    == pre@[s - 1] by {
                    if s == j {
                        assert(self.slot(s) =~= v.encode());
                    } else {
                        assert(j * wi + wi <= s * wi) by (nonlinear_arith)
                            requires
                                wi >= 1,
                                j + 1 <= s,
                        ;
                        assert(s * wi + wi <= n * wi + wi) by (nonlinear_arith)
                            requires
                                wi >= 1,
                                s <= n,
                        ;
                        assert(self.slot(s) =~= mid.slot(s));
                        assert(mid.slot(s) == self.slot(s));
                    }
                }
            }
            j = j - 1;
        }
        proof {
            assert(index * wi + wi <= n * wi + wi) by (nonlinear_arith)
                requires
                    wi >= 1,
                    index <= n,
            ;
        }
        let ghost shifted = *self;
        self.write_slot(index * w, value);
        let pos = self.len_bytes;
        self.len_bytes = pos + w;
        proof {
            let ii = index as int;
            assert((n + 1) * wi == n * wi + wi) by (nonlinear_arith);
            lemma_fundamental_div_mod_converse(u + wi, wi, n + 1, 0);
            value.lemma_codec();
            pre@.insert_ensures(ii, value);
            assert(self@.len() == n + 1);
            assert forall|s: int| 0 <= s < self@.len() implies self@[s] == pre@.insert(ii, value)[s] by {
                if s < ii {
                    assert(s * wi + wi <= index * wi) by (nonlinear_arith)
                        requires
                            wi >= 1,
                            s + 1 <= index,
                    ;
                    assert forall|k: int| s * wi <= k < s * wi + wi implies self.bytes@[k]
                        == pre.bytes@[k] by {
                        assert(shifted.bytes@[k] == pre.bytes@[k]);
                    }
                    assert(self.slot(s) =~= pre.slot(s));
                    assert(self@[s] == pre@[s]);
                } else if s == ii {
                    assert(self.slot(s) =~= value.encode());
                } else {
                    assert(index * wi + wi <= s * wi && s * wi + wi <= (n + 1) * wi)
                        by (nonlinear_arith)
                        requires
                            wi >= 1,
                            index + 1 <= s,
                            s <= n,
                    ;
                    assert(self.slot(s) =~= shifted.slot(s));
                    assert(T::decode(shifted.slot(s)) == pre@[s - 1]);
                }
            }
            assert(self@ =~= pre@.insert(ii, value));
        }
    }

    /// The current contents, in order, as a vector.
    pub fn as_slice(&self) -> (r: Vec<T>)
        requires
            self.wf(),
        ensures
            r@ == self@,
    {
        let n = self.len();
        let mut r: Vec<T> = Vec::new();
        let mut k: usize = 0;
        while k < n
            invariant
                k <= n,
                n == self@.len(),
                self.wf(),
                r@ == self@.subrange(0, k as int),
            decreases n - k,
        {
            let v = self.get(k);
            r.push(v);
            proof {
                assert(r@ =~= self@.subrange(0, k + 1));
            }
            k += 1;
        }
        proof {
            assert(self@.subrange(0, n as int) =~= self@);
        }
        r
    }

    /// Appends every element of `items`, in order, as repeated `push`es.
    pub fn extend(&mut self, items: &Vec<T>)
        requires
            old(self).wf(),
            old(self).used_bytes() + items@.len() * T::width() <= usize::MAX / 2 + 1,
        ensures
            final(self).wf(),
            final(self)@ == old(self)@ + items@,
            final(self).used_bytes() == old(self).used_bytes() + items@.len() * T::width(),
    {
        proof {
            T::lemma_width();
            assert(old(self)@ + items@.subrange(0, 0) =~= old(self)@);
        }
        let ghost wi = T::width() as int;
        let mut k: usize = 0;
        while k < items.len()
            invariant
                k <= items@.len(),
                wi == T::width() as int,
                wi >= 1,
                self.wf(),
                self@ == old(self)@ + items@.subrange(0, k as int),
                self.used_bytes() == old(self).used_bytes() + k * wi,
                old(self).used_bytes() + items@.len() * wi <= usize::MAX / 2 + 1,
            decreases items@.len() - k,
        {
            proof {
                assert(k * wi + wi <= items@.len() * wi) by (nonlinear_arith)
                    requires
                        wi >= 1,
                        k + 1 <= items@.len(),
                ;
            }
            let v = items[k];
            let ghost prev = self@;
            self.push(v);
            proof {
                assert(items@.subrange(0, k + 1) =~= items@.subrange(0, k as int).push(items@[k as int]));
                assert(self@ =~= old(self)@ + items@.subrange(0, k + 1));
                assert((k + 1) * wi == k * wi + wi) by (nonlinear_arith);
            }
            k += 1;
        }
        proof {
            assert(items@.subrange(0, items@.len() as int) =~= items@);
            assert(self@ =~= old(self)@ + items@);
        }
    }
}

impl<T: ScratchItem> View for ScratchBuffer<T> {
    type V = Seq<T>;

    /// The buffer as the sequence of elements it holds.
    closed spec fn view(&self) -> Seq<T> {
        Seq::new(
            self.used_bytes() / T::width(),
            |i: int| T::decode(self.slot(i)),
        )
    }
}

} // verus!
