//! Element types the buffer can hold.
//!
//! The buffer owns plain bytes; an element type joins in through
//! [`ScratchItem`], which fixes how wide one element is and how a value is
//! written to, and read back from, a block of bytes.  Reading is total: any
//! block of the right width decodes to some value, so bytes left behind by a
//! previous element type are simply read as values of the new type — exactly
//! the reinterpretation the buffer promises.  Only plain `Copy` values can
//! join: the buffer never runs any per-element cleanup.

use vstd::bytes::lemma_auto_spec_u16_to_from_le_bytes;
use vstd::bytes::lemma_auto_spec_u32_to_from_le_bytes;
use vstd::bytes::lemma_auto_spec_u64_to_from_le_bytes;
use vstd::bytes::spec_u16_from_le_bytes;
use vstd::bytes::spec_u16_to_le_bytes;
use vstd::bytes::spec_u32_from_le_bytes;
use vstd::bytes::spec_u32_to_le_bytes;
use vstd::bytes::spec_u64_from_le_bytes;
use vstd::bytes::spec_u64_to_le_bytes;
use vstd::bytes::u16_from_le_bytes;
use vstd::bytes::u16_to_le_bytes;
use vstd::bytes::u32_from_le_bytes;
use vstd::bytes::u32_to_le_bytes;
use vstd::bytes::u64_from_le_bytes;
use vstd::bytes::u64_to_le_bytes;
use vstd::prelude::*;

verus! {

/// A plain, bitwise-copyable element type with a fixed-width byte encoding.
pub trait ScratchItem: Copy + Sized {
    /// The number of bytes one element occupies.
    spec fn width() -> nat;

    /// The bytes a value is stored as.
    spec fn encode(self) -> Seq<u8>;

    /// The value a stored block of bytes reads back as.  Total: any block of
    /// `width()` bytes decodes, including bytes written as another type.
    spec fn decode(s: Seq<u8>) -> Self;

    /// Elements are at least one byte wide.
    proof fn lemma_width()
        ensures
            Self::width() >= 1,
    ;

    /// An encoding is exactly one element wide, and decodes back to the value
    /// it was made from.
    proof fn lemma_codec(self)
        ensures
            self.encode().len() == Self::width(),
            Self::decode(self.encode()) == self,
    ;

    /// `width()` as a runtime value.
    fn item_width() -> (w: usize)
        ensures
            w == Self::width(),
    ;

    fn encode_exec(self) -> (b: Vec<u8>)
        ensures
            b@ == self.encode(),
    ;

    fn decode_exec(s: &[u8]) -> (r: Self)
        requires
            s@.len() == Self::width(),
        ensures
            r == Self::decode(s@),
    ;
}

impl ScratchItem for u8 {
    open spec fn width() -> nat {
        1
    }

    open spec fn encode(self) -> Seq<u8> {
        seq![self]
    }

    open spec fn decode(s: Seq<u8>) -> Self {
        s[0]
    }

    proof fn lemma_width() {
    }

    proof fn lemma_codec(self) {
    }

    fn item_width() -> (w: usize) {
        1
    }

    fn encode_exec(self) -> (b: Vec<u8>) {
        let mut b: Vec<u8> = Vec::new();
        b.push(self);
        proof {
            assert(b@ =~= self.encode());
        }
        b
    }

    fn decode_exec(s: &[u8]) -> (r: Self) {
        *vstd::slice::slice_index_get(s, 0)
    }
}

impl ScratchItem for u16 {
    open spec fn width() -> nat {
        2
    }

    open spec fn encode(self) -> Seq<u8> {
        spec_u16_to_le_bytes(self)
    }

    open spec fn decode(s: Seq<u8>) -> Self {
        spec_u16_from_le_bytes(s)
    }

    proof fn lemma_width() {
    }

    proof fn lemma_codec(self) {
        lemma_auto_spec_u16_to_from_le_bytes();
        assert(spec_u16_to_le_bytes(self).len() == 2);
    }

    fn item_width() -> (w: usize) {
        2
    }

    fn encode_exec(self) -> (b: Vec<u8>) {
        u16_to_le_bytes(self)
    }

    fn decode_exec(s: &[u8]) -> (r: Self) {
        u16_from_le_bytes(s)
    }
}

impl ScratchItem for u32 {
    open spec fn width() -> nat {
        4
    }

    open spec fn encode(self) -> Seq<u8> {
        spec_u32_to_le_bytes(self)
    }

    open spec fn decode(s: Seq<u8>) -> Self {
        spec_u32_from_le_bytes(s)
    }

    proof fn lemma_width() {
    }

    proof fn lemma_codec(self) {
        lemma_auto_spec_u32_to_from_le_bytes();
        assert(spec_u32_to_le_bytes(self).len() == 4);
    }

    fn item_width() -> (w: usize) {
        4
    }

    fn encode_exec(self) -> (b: Vec<u8>) {
        u32_to_le_bytes(self)
    }

    fn decode_exec(s: &[u8]) -> (r: Self) {
        u32_from_le_bytes(s)
    }
}

impl ScratchItem for u64 {
    open spec fn width() -> nat {
        8
    }

    open spec fn encode(self) -> Seq<u8> {
        spec_u64_to_le_bytes(self)
    }

    open spec fn decode(s: Seq<u8>) -> Self {
        spec_u64_from_le_bytes(s)
    }

    proof fn lemma_width() {
    }

    proof fn lemma_codec(self) {
        lemma_auto_spec_u64_to_from_le_bytes();
        assert(spec_u64_to_le_bytes(self).len() == 8);
    }

    fn item_width() -> (w: usize) {
        8
    }

    fn encode_exec(self) -> (b: Vec<u8>) {
        u64_to_le_bytes(self)
    }

    fn decode_exec(s: &[u8]) -> (r: Self) {
        u64_from_le_bytes(s)
    }
}

} // verus!
