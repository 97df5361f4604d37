//! The library's cross-cutting round-trip guarantees, stated over the
//! memory model once and proved for every address and every value.

use vstd::prelude::*;
use vstd::utf8::{
    decode_utf8, encode_utf8, encode_utf8_decode_utf8, encode_utf8_valid_utf8, valid_utf8,
};
use crate::source::{lemma_load_store, load_bytes, region_mapped, store_bytes};
use crate::text::{
    first_nul, first_nul_u16, lemma_encode_utf8_no_nul, lemma_first_nul_at,
    lemma_first_nul_u16_at, lemma_units_of_bytes_round_trip, lemma_utf16_no_nul, units_of_bytes,
    utf16_code_units, wide_image,
};
use crate::value::MemValue;

verus! {

/// Round trip for fixed-size plain values: after storing a value's byte
/// image at any address, the image's region is mapped and decoding the
/// bytes loaded from it yields the value back. Together with the accessor's
/// read and write contracts this says a full `write` followed by a
/// successful `read` at the same address returns an equal value.
pub proof fn lemma_value_round_trip<T: MemValue>(m: Map<int, u8>, a: int, v: T)
    ensures
        region_mapped(store_bytes(m, a, T::to_bytes(v)), a, T::byte_len()),
        T::of_bytes(load_bytes(store_bytes(m, a, T::to_bytes(v)), a, T::byte_len())) == v,
{
    T::lemma_round_trip(v);
    lemma_load_store(m, a, T::to_bytes(v));
}

/// Round trip for narrow strings: after storing the UTF-8 bytes of a
/// null-free string with a terminating null at any address, loading that
/// region and truncating at the first null yields valid UTF-8 that decodes
/// to the string exactly. Together with `write_string` and `read_string`'s
/// contracts this says a full write followed by a full read of
/// `encoded length + 1` bytes returns the string.
pub proof fn lemma_narrow_string_round_trip(m: Map<int, u8>, a: int, s: Seq<char>)
    requires
        forall|i: int| 0 <= i < s.len() ==> s[i] != '\0',
    ensures
        ({
            let stored = encode_utf8(s).push(0);
            let loaded = load_bytes(store_bytes(m, a, stored), a, stored.len());
            first_nul(loaded) == encode_utf8(s).len() && valid_utf8(
                loaded.take(first_nul(loaded)),
            ) && decode_utf8(loaded.take(first_nul(loaded))) == s
        }),
{
    let stored = encode_utf8(s).push(0);
    lemma_load_store(m, a, stored);
    let loaded = load_bytes(store_bytes(m, a, stored), a, stored.len());
    assert(loaded == stored);
    lemma_encode_utf8_no_nul(s);
    lemma_first_nul_at(stored, encode_utf8(s).len() as int);
    assert(stored.take(encode_utf8(s).len() as int) =~= encode_utf8(s));
    encode_utf8_valid_utf8(s);
    encode_utf8_decode_utf8(s);
}

/// Round trip for wide strings: after storing the little-endian UTF-16
/// image of a null-free string with a terminating zero unit at any address,
/// loading that region, regrouping it into code units and truncating at the
/// first zero unit yields exactly the string's code units. Together with
/// `write_wstring` and `read_wstring`'s contracts this says a full write
/// followed by a full read of `unit count + 1` characters returns a string
/// with the same UTF-16 encoding.
pub proof fn lemma_wide_string_round_trip(m: Map<int, u8>, a: int, s: Seq<char>)
    requires
        forall|i: int| 0 <= i < s.len() ==> s[i] != '\0',
    ensures
        ({
            let stored = wide_image(s);
            let us = units_of_bytes(load_bytes(store_bytes(m, a, stored), a, stored.len()));
            first_nul_u16(us) == utf16_code_units(s).len() && us.take(first_nul_u16(us))
                == utf16_code_units(s)
        }),
{
    let stored = wide_image(s);
    lemma_load_store(m, a, stored);
    let loaded = load_bytes(store_bytes(m, a, stored), a, stored.len());
    assert(loaded == stored);
    lemma_units_of_bytes_round_trip(utf16_code_units(s).push(0));
    let us = units_of_bytes(loaded);
    assert(us == utf16_code_units(s).push(0));
    lemma_utf16_no_nul(s);
    lemma_first_nul_u16_at(us, utf16_code_units(s).len() as int);
    assert(us.take(utf16_code_units(s).len() as int) =~= utf16_code_units(s));
}

} // verus!
