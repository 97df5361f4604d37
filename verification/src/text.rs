//! String marshalling across the process boundary: C strings are UTF-8
//! bytes up to a null terminator, wide strings are little-endian UTF-16
//! code units up to a zero unit. Decoding truncates at the first null and
//! reports a decode failure as a buffer-size error carrying the null
//! position, as the accessor's callers expect.

use vstd::prelude::*;
use vstd::utf8::{
    char_is_scalar, char_u32_cast, decode_utf8, encode_scalar, encode_utf8,
    has_width_1_encoding, valid_utf8,
};
use crate::error::mm_error;

verus! {

/// Index of the first zero byte, or the length when there is none.
pub open spec fn first_nul(b: Seq<u8>) -> int
    decreases b.len(),
{
    if b.len() == 0 {
        0
    } else if b[0] == 0 {
        0
    } else {
        1 + first_nul(b.drop_first())
    }
}

/// `first_nul` points at the first zero byte: everything before it is
/// non-zero, and it is the length exactly when no byte is zero.
pub proof fn lemma_first_nul_props(b: Seq<u8>)
    ensures
        0 <= first_nul(b) <= b.len(),
        forall|i: int| 0 <= i < first_nul(b) ==> b[i] != 0,
        first_nul(b) < b.len() ==> b[first_nul(b)] == 0,
    decreases b.len(),
{
    if b.len() == 0 {
    } else if b[0] == 0 {
    } else {
        lemma_first_nul_props(b.drop_first());
        assert forall|i: int| 0 <= i < first_nul(b) implies b[i] != 0 by {
            if i > 0 {
                assert(b.drop_first()[i - 1] != 0);
            }
        }
    }
}

/// A position with no zero before it, and a zero at it unless it is the
/// end, is the first null.
pub proof fn lemma_first_nul_at(b: Seq<u8>, i: int)
    requires
        0 <= i <= b.len(),
        forall|j: int| 0 <= j < i ==> b[j] != 0,
        i < b.len() ==> b[i] == 0,
    ensures
        first_nul(b) == i,
    decreases b.len(),
{
    if b.len() == 0 {
    } else if i == 0 {
    } else {
        assert(b[0] != 0);
        assert forall|j: int| 0 <= j < i - 1 implies b.drop_first()[j] != 0 by {
            assert(b[j + 1] != 0);
        }
        lemma_first_nul_at(b.drop_first(), i - 1);
    }
}

fn find_nul(b: &Vec<u8>) -> (r: usize)
    ensures
        r == first_nul(b@),
{
    let mut i: usize = 0;
    while i < b.len()
        invariant
            i <= b@.len(),
            forall|j: int| 0 <= j < i ==> b@[j] != 0,
        decreases b@.len() - i,
    {
        if b[i] == 0 {
            proof {
                lemma_first_nul_at(b@, i as int);
            }
            return i;
        }
        i = i + 1;
    }
    proof {
        lemma_first_nul_at(b@, i as int);
    }
    i
}

/// Relies on `String::from_utf8`: it succeeds exactly on valid UTF-8 and
/// returns the string those bytes encode.
#[verifier::external_body]
fn bytes_to_string(bytes: Vec<u8>) -> (r: Option<String>)
    ensures
        match r {
            Some(s) => valid_utf8(bytes@) && s@ == decode_utf8(bytes@),
            None => !valid_utf8(bytes@),
        },
{
    String::from_utf8(bytes).ok()
}

/// Truncate at the first null byte (or the end of the buffer) and decode
/// the prefix as UTF-8. A decode failure reuses the buffer-size error kind:
/// it carries the requested byte count against the null position.
pub fn decode_narrow(bytes: Vec<u8>, max_length: usize) -> (r: Result<String, mm_error>)
    ensures
        ({
            let head = bytes@.take(first_nul(bytes@));
            match r {
                Ok(s) => valid_utf8(head) && s@ == decode_utf8(head),
                Err(e) => !valid_utf8(head) && e == (mm_error::InvalidBufferSize {
                    expected: max_length,
                    actual: first_nul(bytes@) as usize,
                }),
            }
        }),
{
    proof {
        lemma_first_nul_props(bytes@);
    }
    let p = find_nul(&bytes);
    let mut head = bytes;
    head.truncate(p);
    match bytes_to_string(head) {
        Some(s) => Ok(s),
        None => Err(mm_error::InvalidBufferSize { expected: max_length, actual: p }),
    }
}

/// The UTF-8 encoding of a string without nulls has no zero byte, so a
/// null terminator appended to it is the first null.
pub proof fn lemma_encode_utf8_no_nul(s: Seq<char>)
    requires
        forall|i: int| 0 <= i < s.len() ==> s[i] != '\0',
    ensures
        forall|j: int| 0 <= j < encode_utf8(s).len() ==> encode_utf8(s)[j] != 0,
    decreases s.len(),
{
    if s.len() == 0 {
    } else {
        let c = s[0] as u32;
        char_is_scalar(s[0]);
        char_u32_cast(s[0], c);
        assert('\0' as u32 == 0);
        if c == 0 {
            assert(s[0] == '\0');
            assert(false);
        }
        assert(c != 0);
        if has_width_1_encoding(c) {
            assert((c & 0x7F) as u8 != 0) by (bit_vector)
                requires
                    c < 0x80,
                    c != 0,
            ;
        } else {
            assert((0xC0u8 | ((c >> 6) & 0x1F) as u8) != 0) by (bit_vector);
            assert((0xE0u8 | ((c >> 12) & 0x0F) as u8) != 0) by (bit_vector);
            assert((0xF0u8 | ((c >> 18) & 0x7) as u8) != 0) by (bit_vector);
            assert((0x80u8 | (c & 0x3F) as u8) != 0) by (bit_vector);
            assert((0x80u8 | ((c >> 6) & 0x3F) as u8) != 0) by (bit_vector);
            assert((0x80u8 | ((c >> 12) & 0x3F) as u8) != 0) by (bit_vector);
        }
        assert(forall|j: int|
            0 <= j < encode_scalar(c).len() ==> encode_scalar(c)[j] != 0);
        assert forall|i: int| 0 <= i < s.drop_first().len() implies s.drop_first()[i] != '\0' by {
            assert(s[i + 1] != '\0');
        }
        lemma_encode_utf8_no_nul(s.drop_first());
        assert forall|j: int| 0 <= j < encode_utf8(s).len() implies encode_utf8(s)[j] != 0 by {
            if j < encode_scalar(c).len() {
                assert(encode_utf8(s)[j] == encode_scalar(c)[j]);
            } else {
                assert(encode_utf8(s)[j] == encode_utf8(s.drop_first())[j - encode_scalar(
                    c,
                ).len()]);
            }
        }
    }
}

/// The least-significant byte of a little-endian code unit.
pub open spec fn unit_lo(u: u16) -> u8 {
    (u % 256) as u8
}

/// The most-significant byte of a little-endian code unit.
pub open spec fn unit_hi(u: u16) -> u8 {
    (u / 256) as u8
}

/// The code unit two little-endian bytes denote.
pub open spec fn unit_of_bytes(b0: u8, b1: u8) -> u16 {
    (b0 + 256 * b1) as u16
}

/// Splitting a unit into bytes and reassembling is the identity, and so is
/// the converse.
pub proof fn lemma_unit_bytes(u: u16, b0: u8, b1: u8)
    ensures
        unit_of_bytes(unit_lo(u), unit_hi(u)) == u,
        unit_lo(unit_of_bytes(b0, b1)) == b0,
        unit_hi(unit_of_bytes(b0, b1)) == b1,
{
    assert(unit_of_bytes(unit_lo(u), unit_hi(u)) == u) by (nonlinear_arith);
    assert(unit_lo(unit_of_bytes(b0, b1)) == b0) by (nonlinear_arith);
    assert(unit_hi(unit_of_bytes(b0, b1)) == b1) by (nonlinear_arith);
}

/// A sequence of code units as little-endian bytes.
pub open spec fn u16s_to_le_bytes(us: Seq<u16>) -> Seq<u8>
    decreases us.len(),
{
    if us.len() == 0 {
        Seq::empty()
    } else {
        u16s_to_le_bytes(us.drop_last()) + seq![unit_lo(us.last()), unit_hi(us.last())]
    }
}

pub proof fn lemma_u16s_to_le_bytes_len(us: Seq<u16>)
    ensures
        u16s_to_le_bytes(us).len() == 2 * us.len(),
    decreases us.len(),
{
    if us.len() == 0 {
    } else {
        lemma_u16s_to_le_bytes_len(us.drop_last());
    }
}

/// The code units an even prefix of a byte sequence denotes; a trailing odd
/// byte is ignored.
pub open spec fn units_of_bytes(b: Seq<u8>) -> Seq<u16> {
    Seq::new(b.len() / 2, |i: int| unit_of_bytes(b[2 * i], b[2 * i + 1]))
}

/// Turning units into little-endian bytes and back is the identity.
pub proof fn lemma_units_of_bytes_round_trip(us: Seq<u16>)
    ensures
        units_of_bytes(u16s_to_le_bytes(us)) == us,
    decreases us.len(),
{
    lemma_u16s_to_le_bytes_len(us);
    if us.len() == 0 {
        assert(units_of_bytes(u16s_to_le_bytes(us)) =~= us);
    } else {
        lemma_units_of_bytes_round_trip(us.drop_last());
        lemma_u16s_to_le_bytes_len(us.drop_last());
        let b = u16s_to_le_bytes(us);
        let bp = u16s_to_le_bytes(us.drop_last());
        assert forall|i: int| 0 <= i < us.len() implies units_of_bytes(b)[i] == us[i] by {
            lemma_unit_bytes(us[i], 0, 0);
            if i < us.len() - 1 {
                assert(b[2 * i] == bp[2 * i] && b[2 * i + 1] == bp[2 * i + 1]);
                assert(units_of_bytes(bp)[i] == us.drop_last()[i]);
            } else {
                assert(b[2 * i] == unit_lo(us.last()) && b[2 * i + 1] == unit_hi(us.last()));
            }
        }
        assert(units_of_bytes(b) =~= us);
    }
}

/// Index of the first zero unit, or the length when there is none.
pub open spec fn first_nul_u16(us: Seq<u16>) -> int
    decreases us.len(),
{
    if us.len() == 0 {
        0
    } else if us[0] == 0 {
        0
    } else {
        1 + first_nul_u16(us.drop_first())
    }
}

/// A position with no zero unit before it, and a zero at it unless it is
/// the end, is the first zero unit.
pub proof fn lemma_first_nul_u16_at(us: Seq<u16>, i: int)
    requires
        0 <= i <= us.len(),
        forall|j: int| 0 <= j < i ==> us[j] != 0,
        i < us.len() ==> us[i] == 0,
    ensures
        first_nul_u16(us) == i,
    decreases us.len(),
{
    if us.len() == 0 {
    } else if i == 0 {
    } else {
        assert(us[0] != 0);
        assert forall|j: int| 0 <= j < i - 1 implies us.drop_first()[j] != 0 by {
            assert(us[j + 1] != 0);
        }
        lemma_first_nul_u16_at(us.drop_first(), i - 1);
    }
}

fn find_nul_u16(us: &Vec<u16>) -> (r: usize)
    ensures
        r == first_nul_u16(us@),
{
    let mut i: usize = 0;
    while i < us.len()
        invariant
            i <= us@.len(),
            forall|j: int| 0 <= j < i ==> us@[j] != 0,
        decreases us@.len() - i,
    {
        if us[i] == 0 {
            proof {
                lemma_first_nul_u16_at(us@, i as int);
            }
            return i;
        }
        i = i + 1;
    }
    proof {
        lemma_first_nul_u16_at(us@, i as int);
    }
    i
}

/// The UTF-16 encoding of one character: scalars below 0x10000 are one
/// unit, the rest are a surrogate pair.
pub open spec fn utf16_encode_char(c: char) -> Seq<u16> {
    let v = c as u32;
    if v < 0x10000 {
        seq![v as u16]
    } else {
        let w = (v - 0x10000) as u32;
        seq![(0xD800 + (w >> 10)) as u16, (0xDC00 + (w & 0x3FF)) as u16]
    }
}

/// The UTF-16 code units of a character sequence.
pub open spec fn utf16_code_units(s: Seq<char>) -> Seq<u16>
    decreases s.len(),
{
    if s.len() == 0 {
        Seq::empty()
    } else {
        utf16_encode_char(s[0]) + utf16_code_units(s.drop_first())
    }
}

/// The UTF-16 encoding of a string without nulls has no zero unit.
pub proof fn lemma_utf16_no_nul(s: Seq<char>)
    requires
        forall|i: int| 0 <= i < s.len() ==> s[i] != '\0',
    ensures
        forall|j: int| 0 <= j < utf16_code_units(s).len() ==> utf16_code_units(s)[j] != 0,
    decreases s.len(),
{
    if s.len() == 0 {
    } else {
        let v = s[0] as u32;
        char_is_scalar(s[0]);
        char_u32_cast(s[0], v);
        assert('\0' as u32 == 0);
        if v == 0 {
            assert(s[0] == '\0');
            assert(false);
        }
        if v < 0x10000 {
            assert(v as u16 != 0) by (bit_vector)
                requires
                    v != 0,
                    v < 0x10000,
            ;
        } else {
            let w = (v - 0x10000) as u32;
            assert((0xD800 + (w >> 10)) as u16 != 0 && (0xDC00 + (w & 0x3FF)) as u16 != 0)
                by (bit_vector)
                requires
                    w < 0x100000,
            ;
        }
        assert forall|i: int| 0 <= i < s.drop_first().len() implies s.drop_first()[i] != '\0' by {
            assert(s[i + 1] != '\0');
        }
        lemma_utf16_no_nul(s.drop_first());
        assert forall|j: int|
            0 <= j < utf16_code_units(s).len() implies utf16_code_units(s)[j] != 0 by {
            if j < utf16_encode_char(s[0]).len() {
                assert(utf16_code_units(s)[j] == utf16_encode_char(s[0])[j]);
            } else {
                assert(utf16_code_units(s)[j] == utf16_code_units(s.drop_first())[j
                    - utf16_encode_char(s[0]).len()]);
            }
        }
    }
}

/// UTF-16 encoding is injective: two character sequences with the same
/// code units are the same sequence, so decoding a wide read of a
/// previously written string recovers that string and no other.
pub proof fn lemma_utf16_injective(a: Seq<char>, b: Seq<char>)
    requires
        utf16_code_units(a) == utf16_code_units(b),
    ensures
        a == b,
    decreases a.len(),
{
    if a.len() == 0 && b.len() == 0 {
        assert(a =~= b);
    } else if a.len() == 0 {
        assert(utf16_code_units(b).len() >= utf16_encode_char(b[0]).len());
        assert(false);
    } else if b.len() == 0 {
        assert(utf16_code_units(a).len() >= utf16_encode_char(a[0]).len());
        assert(false);
    } else {
        let ua = a[0] as u32;
        let ub = b[0] as u32;
        char_is_scalar(a[0]);
        char_is_scalar(b[0]);
        char_u32_cast(a[0], ua);
        char_u32_cast(b[0], ub);
        let ea = utf16_encode_char(a[0]);
        let eb = utf16_encode_char(b[0]);
        assert(utf16_code_units(a)[0] == ea[0]);
        assert(utf16_code_units(b)[0] == eb[0]);
        assert(!(0xD800 <= ua <= 0xDFFF) && ua <= 0x10FFFF);
        assert(!(0xD800 <= ub <= 0xDFFF) && ub <= 0x10FFFF);
        if ua < 0x10000 && ub < 0x10000 {
            assert((ua as u16 == ub as u16) ==> ua == ub) by (bit_vector)
                requires
                    ua < 0x10000,
                    ub < 0x10000,
            ;
            assert(a[0] == b[0]);
        } else if ua < 0x10000 {
            let wb = (ub - 0x10000) as u32;
            assert((ua as u16) != ((0xD800 + (wb >> 10)) as u16)) by (bit_vector)
                requires
                    ua < 0x10000,
                    !(0xD800 <= ua <= 0xDFFF),
                    wb < 0x100000,
            ;
            assert(false);
        } else if ub < 0x10000 {
            let wa = (ua - 0x10000) as u32;
            assert((ub as u16) != ((0xD800 + (wa >> 10)) as u16)) by (bit_vector)
                requires
                    ub < 0x10000,
                    !(0xD800 <= ub <= 0xDFFF),
                    wa < 0x100000,
            ;
            assert(false);
        } else {
            let wa = (ua - 0x10000) as u32;
            let wb = (ub - 0x10000) as u32;
            assert(utf16_code_units(a)[1] == ea[1]);
            assert(utf16_code_units(b)[1] == eb[1]);
            assert((((0xD800 + (wa >> 10)) as u16) == ((0xD800 + (wb >> 10)) as u16) && ((0xDC00 + (
            wa & 0x3FF)) as u16) == ((0xDC00 + (wb & 0x3FF)) as u16)) ==> wa == wb) by (bit_vector)
                requires
                    wa < 0x100000,
                    wb < 0x100000,
            ;
            assert(ua == ub);
            assert(a[0] == b[0]);
        }
        assert(ea == eb);
        assert(utf16_code_units(a).skip(ea.len() as int) =~= utf16_code_units(a.drop_first()));
        assert(utf16_code_units(b).skip(eb.len() as int) =~= utf16_code_units(b.drop_first()));
        lemma_utf16_injective(a.drop_first(), b.drop_first());
        assert forall|i: int| 0 <= i < a.len() implies a[i] == b[i] by {
            if i > 0 {
                assert(a[i] == a.drop_first()[i - 1]);
                assert(b[i] == b.drop_first()[i - 1]);
            }
        }
        assert(a =~= b);
    }
}

/// Relies on `str::encode_utf16`: the UTF-16 code units of the string's
/// characters, in order.
#[verifier::external_body]
fn encode_wide(s: &str) -> (r: Vec<u16>)
    ensures
        r@ == utf16_code_units(s@),
{
    s.encode_utf16().collect()
}

/// Relies on `String::from_utf16`: it succeeds exactly on well-formed
/// UTF-16 and returns the string those units encode.
#[verifier::external_body]
fn utf16_to_string(units: &[u16]) -> (r: Option<String>)
    ensures
        match r {
            Some(s) => units@ == utf16_code_units(s@),
            None => !(exists|t: Seq<char>| units@ == utf16_code_units(t)),
        },
{
    String::from_utf16(units).ok()
}

/// The UTF-16 code units of a string, terminated by one zero unit, as
/// little-endian bytes: what a wide-string write stores.
pub open spec fn wide_image(s: Seq<char>) -> Seq<u8> {
    u16s_to_le_bytes(utf16_code_units(s).push(0))
}

pub(crate) fn encode_wide_terminated(s: &str) -> (r: Vec<u8>)
    ensures
        r@ == wide_image(s@),
{
    let mut units = encode_wide(s);
    units.push(0);
    units_to_bytes(&units)
}

fn units_to_bytes(units: &Vec<u16>) -> (r: Vec<u8>)
    ensures
        r@ == u16s_to_le_bytes(units@),
{
    let mut out: Vec<u8> = Vec::new();
    let mut i: usize = 0;
    proof {
        assert(units@.take(0) =~= Seq::<u16>::empty());
    }
    while i < units.len()
        invariant
            i <= units@.len(),
            out@ == u16s_to_le_bytes(units@.take(i as int)),
        decreases units@.len() - i,
    {
        let u = units[i];
        out.push((u % 256) as u8);
        out.push((u / 256) as u8);
        proof {
            assert(units@.take(i as int + 1).drop_last() =~= units@.take(i as int));
            assert(units@.take(i as int + 1).last() == units@[i as int]);
            assert(out@ =~= u16s_to_le_bytes(units@.take(i as int)) + seq![
                unit_lo(units@[i as int]),
                unit_hi(units@[i as int]),
            ]);
        }
        i = i + 1;
    }
    proof {
        assert(units@.take(units@.len() as int) =~= units@);
    }
    out
}

fn units_from_bytes(bytes: &Vec<u8>) -> (r: Vec<u16>)
    ensures
        r@ == units_of_bytes(bytes@),
{
    let n = bytes.len() / 2;
    let mut out: Vec<u16> = Vec::new();
    let mut i: usize = 0;
    while i < n
        invariant
            n == bytes@.len() / 2,
            bytes@.len() <= usize::MAX,
            i <= n,
            out@.len() == i,
            forall|q: int| 0 <= q < i ==> out@[q] == units_of_bytes(bytes@)[q],
        decreases n - i,
    {
        proof {
            assert(2 * (bytes@.len() / 2) <= bytes@.len()) by (nonlinear_arith);
            assert(2 * i + 1 < bytes@.len());
        }
        let b0 = bytes[2 * i];
        let b1 = bytes[2 * i + 1];
        let u: u16 = b0 as u16 + 256 * (b1 as u16);
        let ghost prev = out@;
        out.push(u);
        proof {
            assert forall|q: int| 0 <= q < i + 1 implies out@[q] == units_of_bytes(bytes@)[q] by {
                if q < i {
                    assert(out@[q] == prev[q]);
                } else {
                    assert(out@[q] == u);
                }
            }
        }
        i = i + 1;
    }
    proof {
        assert(out@ =~= units_of_bytes(bytes@));
    }
    out
}

/// Truncate at the first zero unit (or the end) and decode the prefix as
/// UTF-16. A decode failure reuses the buffer-size error kind: it carries
/// the requested character count against the zero-unit position.
pub fn decode_wide(bytes: Vec<u8>, max_chars: usize) -> (r: Result<String, mm_error>)
    ensures
        ({
            let us = units_of_bytes(bytes@);
            let head = us.take(first_nul_u16(us));
            match r {
                Ok(s) => head == utf16_code_units(s@),
                Err(e) => !(exists|t: Seq<char>| head == utf16_code_units(t)) && e == (
                mm_error::InvalidBufferSize {
                    expected: max_chars,
                    actual: first_nul_u16(us) as usize,
                }),
            }
        }),
{
    proof {
        lemma_first_nul_u16_props(units_of_bytes(bytes@));
    }
    let mut units = units_from_bytes(&bytes);
    let p = find_nul_u16(&units);
    units.truncate(p);
    match utf16_to_string(units.as_slice()) {
        Some(s) => Ok(s),
        None => Err(mm_error::InvalidBufferSize { expected: max_chars, actual: p }),
    }
}

/// `first_nul_u16` is in range.
pub proof fn lemma_first_nul_u16_props(us: Seq<u16>)
    ensures
        0 <= first_nul_u16(us) <= us.len(),
    decreases us.len(),
{
    if us.len() == 0 {
    } else if us[0] == 0 {
    } else {
        lemma_first_nul_u16_props(us.drop_first());
    }
}

pub uninterp spec fn lower_of(s: Seq<char>) -> Seq<char>;

/// Relies on `str::to_lowercase`: the result is a function of the
/// characters alone, the same in every call.
#[verifier::external_body]
fn to_lower(s: &str) -> (r: String)
    ensures
        r@ == lower_of(s@),
{
    s.to_lowercase()
}

/// Case-insensitive equality, the comparison process and module names use:
/// true exactly when the two strings agree after case folding.
pub fn names_equal_ci(a: &str, b: &str) -> (r: bool)
    ensures
        r == (lower_of(a@) == lower_of(b@)),
{
    let la = to_lower(a);
    let lb = to_lower(b);
    la == lb
}

} // verus!
