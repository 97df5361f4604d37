//! Fixed-size plain values that can cross the process boundary: a value is
//! exactly its little-endian byte image, and encoding then decoding gives
//! the value back.

use vstd::prelude::*;
use vstd::bytes::{
    lemma_auto_spec_u16_to_from_le_bytes, lemma_auto_spec_u32_to_from_le_bytes,
    lemma_auto_spec_u64_to_from_le_bytes, spec_u16_from_le_bytes, spec_u16_to_le_bytes,
    spec_u32_from_le_bytes, spec_u32_to_le_bytes, spec_u64_from_le_bytes, spec_u64_to_le_bytes,
    u16_from_le_bytes, u16_to_le_bytes, u32_from_le_bytes, u32_to_le_bytes, u64_from_le_bytes,
    u64_to_le_bytes,
};

verus! {

/// A type whose values are marshalled through target memory as a fixed
/// number of little-endian bytes.
pub trait MemValue: Sized {
    /// How many bytes one value occupies.
    spec fn byte_len() -> nat;

    /// The little-endian byte image of a value.
    spec fn to_bytes(v: Self) -> Seq<u8>;

    /// The value a `byte_len()`-byte image denotes.
    spec fn of_bytes(b: Seq<u8>) -> Self;

    /// The image has length `byte_len()` and decodes back to the value.
    proof fn lemma_round_trip(v: Self)
        ensures
            Self::to_bytes(v).len() == Self::byte_len(),
            Self::of_bytes(Self::to_bytes(v)) == v,
    ;

    fn byte_size() -> (n: usize)
        ensures
            n == Self::byte_len(),
            0 < n,
    ;

    fn to_le_bytes(&self) -> (b: Vec<u8>)
        ensures
            b@ == Self::to_bytes(*self),
    ;

    fn from_le_bytes(b: &[u8]) -> (v: Self)
        requires
            b@.len() == Self::byte_len(),
        ensures
            v == Self::of_bytes(b@),
    ;
}

impl MemValue for u8 {
    open spec fn byte_len() -> nat {
        1
    }

    open spec fn to_bytes(v: Self) -> Seq<u8> {
        seq![v]
    }

    open spec fn of_bytes(b: Seq<u8>) -> Self {
        b[0]
    }

    proof fn lemma_round_trip(v: Self) {
    }

    fn byte_size() -> (n: usize) {
        1
    }

    fn to_le_bytes(&self) -> (b: Vec<u8>) {
        let mut b: Vec<u8> = Vec::new();
        b.push(*self);
        proof {
            assert(b@ =~= seq![*self]);
        }
        b
    }

    fn from_le_bytes(b: &[u8]) -> (v: Self) {
        b[0]
    }
}

impl MemValue for u16 {
    open spec fn byte_len() -> nat {
        2
    }

    open spec fn to_bytes(v: Self) -> Seq<u8> {
        spec_u16_to_le_bytes(v)
    }

    open spec fn of_bytes(b: Seq<u8>) -> Self {
        spec_u16_from_le_bytes(b)
    }

    proof fn lemma_round_trip(v: Self) {
        lemma_auto_spec_u16_to_from_le_bytes();
        assert(spec_u16_to_le_bytes(v).len() == 2);
        assert(spec_u16_from_le_bytes(spec_u16_to_le_bytes(v)) == v);
    }

    fn byte_size() -> (n: usize) {
        2
    }

    fn to_le_bytes(&self) -> (b: Vec<u8>) {
        u16_to_le_bytes(*self)
    }

    fn from_le_bytes(b: &[u8]) -> (v: Self) {
        u16_from_le_bytes(b)
    }
}

impl MemValue for u32 {
    open spec fn byte_len() -> nat {
        4
    }

    open spec fn to_bytes(v: Self) -> Seq<u8> {
        spec_u32_to_le_bytes(v)
    }

    open spec fn of_bytes(b: Seq<u8>) -> Self {
        spec_u32_from_le_bytes(b)
    }

    proof fn lemma_round_trip(v: Self) {
        lemma_auto_spec_u32_to_from_le_bytes();
        assert(spec_u32_to_le_bytes(v).len() == 4);
        assert(spec_u32_from_le_bytes(spec_u32_to_le_bytes(v)) == v);
    }

    fn byte_size() -> (n: usize) {
        4
    }

    fn to_le_bytes(&self) -> (b: Vec<u8>) {
        u32_to_le_bytes(*self)
    }

    fn from_le_bytes(b: &[u8]) -> (v: Self) {
        u32_from_le_bytes(b)
    }
}

impl MemValue for u64 {
    open spec fn byte_len() -> nat {
        8
    }

    open spec fn to_bytes(v: Self) -> Seq<u8> {
        spec_u64_to_le_bytes(v)
    }

    open spec fn of_bytes(b: Seq<u8>) -> Self {
        spec_u64_from_le_bytes(b)
    }

    proof fn lemma_round_trip(v: Self) {
        lemma_auto_spec_u64_to_from_le_bytes();
    }

    fn byte_size() -> (n: usize) {
        8
    }

    fn to_le_bytes(&self) -> (b: Vec<u8>) {
        u64_to_le_bytes(*self)
    }

    fn from_le_bytes(b: &[u8]) -> (v: Self) {
        u64_from_le_bytes(b)
    }
}

/// Signed values travel as the two's-complement image of their width.
impl MemValue for i32 {
    open spec fn byte_len() -> nat {
        4
    }

    open spec fn to_bytes(v: Self) -> Seq<u8> {
        spec_u32_to_le_bytes(v as u32)
    }

    open spec fn of_bytes(b: Seq<u8>) -> Self {
        spec_u32_from_le_bytes(b) as i32
    }

    proof fn lemma_round_trip(v: Self) {
        lemma_auto_spec_u32_to_from_le_bytes();
        assert(spec_u32_to_le_bytes(v as u32).len() == 4);
        assert(spec_u32_from_le_bytes(spec_u32_to_le_bytes(v as u32)) == v as u32);
        assert((v as u32) as i32 == v) by (bit_vector);
    }

    fn byte_size() -> (n: usize) {
        4
    }

    fn to_le_bytes(&self) -> (b: Vec<u8>) {
        u32_to_le_bytes(*self as u32)
    }

    fn from_le_bytes(b: &[u8]) -> (v: Self) {
        u32_from_le_bytes(b) as i32
    }
}

impl MemValue for i64 {
    open spec fn byte_len() -> nat {
        8
    }

    open spec fn to_bytes(v: Self) -> Seq<u8> {
        spec_u64_to_le_bytes(v as u64)
    }

    open spec fn of_bytes(b: Seq<u8>) -> Self {
        spec_u64_from_le_bytes(b) as i64
    }

    proof fn lemma_round_trip(v: Self) {
        lemma_auto_spec_u64_to_from_le_bytes();
        assert(spec_u64_to_le_bytes(v as u64).len() == 8);
        assert(spec_u64_from_le_bytes(spec_u64_to_le_bytes(v as u64)) == v as u64);
        assert((v as u64) as i64 == v) by (bit_vector);
    }

    fn byte_size() -> (n: usize) {
        8
    }

    fn to_le_bytes(&self) -> (b: Vec<u8>) {
        u64_to_le_bytes(*self as u64)
    }

    fn from_le_bytes(b: &[u8]) -> (v: Self) {
        u64_from_le_bytes(b) as i64
    }
}

/// Addresses and pointer-sized values travel as eight little-endian bytes;
/// the value itself always fits the platform word this code runs on.
impl MemValue for usize {
    open spec fn byte_len() -> nat {
        8
    }

    open spec fn to_bytes(v: Self) -> Seq<u8> {
        spec_u64_to_le_bytes(v as u64)
    }

    open spec fn of_bytes(b: Seq<u8>) -> Self {
        spec_u64_from_le_bytes(b) as usize
    }

    proof fn lemma_round_trip(v: Self) {
        lemma_auto_spec_u64_to_from_le_bytes();
        assert(spec_u64_from_le_bytes(spec_u64_to_le_bytes(v as u64)) == v as u64);
        assert((v as u64) as usize == v);
    }

    fn byte_size() -> (n: usize) {
        8
    }

    fn to_le_bytes(&self) -> (b: Vec<u8>) {
        u64_to_le_bytes(*self as u64)
    }

    fn from_le_bytes(b: &[u8]) -> (v: Self) {
        u64_from_le_bytes(b) as usize
    }
}

} // verus!
