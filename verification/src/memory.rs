//! The typed memory accessor: byte-level and typed read/write and
//! pointer-chain resolution over any [`MemorySource`], plus a type-bound
//! view for homogeneous array I/O.
//!
//! Every operation takes an absolute address in the target's address space
//! and performs no bounds checking against known modules. Failures are
//! surfaced as typed errors; no partial result is returned for typed reads.

use vstd::prelude::*;
use vstd::string::StringSliceAdditionalSpecFns;
use vstd::utf8::{decode_utf8, encode_utf8, valid_utf8};
use core::marker::PhantomData;
use crate::error::mm_error;
use crate::ntapi::STATUS_SUCCESS;
use crate::source::{
    MemorySource, lemma_store_adjacent, lemma_store_bytes_empty, load_bytes,
    region_mapped, store_bytes,
};
use crate::text::{
    decode_narrow, decode_wide, encode_wide_terminated, first_nul, first_nul_u16,
    lemma_first_nul_props, lemma_first_nul_u16_props, units_of_bytes, utf16_code_units, wide_image,
};
use crate::value::MemValue;

verus! {

/// Address addition that wraps around the address space: chains may rely on
/// wraparound, so overflow is modular, never an error.
pub open spec fn wrap_add(x: usize, y: usize) -> usize {
    if x + y > usize::MAX {
        (x + y - (usize::MAX + 1)) as usize
    } else {
        (x + y) as usize
    }
}

/// The pointer-sized value stored at `a`.
pub open spec fn deref_at(m: Map<int, u8>, a: usize) -> usize {
    <usize as MemValue>::of_bytes(
        load_bytes(m, a as int, <usize as MemValue>::byte_len()),
    )
}

/// Where a pointer chain leads: each offset is added (wrapping) to the
/// current address, and every offset but the last is followed by a
/// dereference of the current address. `None` when a required dereference
/// touches unmapped memory.
pub open spec fn chain_resolve(m: Map<int, u8>, base: usize, offsets: Seq<usize>) -> Option<usize>
    decreases offsets.len(),
{
    if offsets.len() == 0 {
        Some(base)
    } else {
        let a = wrap_add(base, offsets[0]);
        if offsets.len() == 1 {
            Some(a)
        } else if region_mapped(m, a as int, <usize as MemValue>::byte_len()) {
            chain_resolve(m, deref_at(m, a), offsets.drop_first())
        } else {
            None
        }
    }
}

/// The concatenated byte images of a sequence of values.
pub open spec fn concat_bytes<T: MemValue>(vs: Seq<T>) -> Seq<u8>
    decreases vs.len(),
{
    if vs.len() == 0 {
        Seq::empty()
    } else {
        concat_bytes(vs.drop_last()) + T::to_bytes(vs.last())
    }
}

/// Every value contributes exactly `byte_len()` bytes.
pub proof fn lemma_concat_bytes_len<T: MemValue>(vs: Seq<T>)
    ensures
        concat_bytes(vs).len() == vs.len() * T::byte_len(),
    decreases vs.len(),
{
    if vs.len() == 0 {
    } else {
        lemma_concat_bytes_len::<T>(vs.drop_last());
        T::lemma_round_trip(vs.last());
        assert((vs.len() - 1) * T::byte_len() + T::byte_len() == vs.len() * T::byte_len())
            by (nonlinear_arith);
    }
}

/// The stateless typed accessor over one memory source.
#[allow(non_camel_case_types)]
pub struct mmg<M: MemorySource> {
    pub source: M,
}

impl<M: MemorySource> mmg<M> {
    /// The accessor's current view of the target's memory.
    pub open spec fn mem(&self) -> Map<int, u8> {
        self.source.mem()
    }

    /// The source's raw-call logs, one entry per native call.
    pub open spec fn read_addrs(&self) -> Seq<usize> {
        self.source.read_addrs()
    }

    pub open spec fn write_addrs(&self) -> Seq<usize> {
        self.source.write_addrs()
    }

    pub fn new(source: M) -> (r: Self)
        ensures
            r.source == source,
    {
        mmg { source }
    }

    /// Read one `T` at `address`: exactly `byte_len()` bytes, decoded
    /// little-endian. A native failure keeps the address and status; a
    /// native success that copied fewer bytes than requested is a partial
    /// copy and fails with the expected and actual counts, never returning
    /// a partially-filled value.
    pub fn read<T: MemValue>(&mut self, address: usize) -> (r: Result<T, mm_error>)
        ensures
            final(self).mem() == old(self).mem(),
            final(self).read_addrs() == old(self).read_addrs().push(address),
            final(self).write_addrs() == old(self).write_addrs(),
            match r {
                Ok(v) => region_mapped(old(self).mem(), address as int, T::byte_len()) && v
                    == T::of_bytes(load_bytes(old(self).mem(), address as int, T::byte_len())),
                Err(e) => match e {
                    mm_error::ReadFailed { address: fa, status } => fa == address && status
                        != STATUS_SUCCESS,
                    mm_error::InvalidBufferSize { expected, actual } => expected == T::byte_len()
                        && actual < expected,
                    _ => false,
                },
            },
    {
        let size = T::byte_size();
        let (data, got, status) = self.source.read_mem(address, size);
        if status != STATUS_SUCCESS {
            return Err(mm_error::ReadFailed { address, status });
        }
        if got != size {
            return Err(mm_error::InvalidBufferSize { expected: size, actual: got });
        }
        proof {
            assert(data@.take(size as int) =~= data@);
        }
        Ok(T::from_le_bytes(data.as_slice()))
    }

    /// Write one `T` at `address` as its little-endian image and return the
    /// number of bytes the native call reported written; afterwards memory
    /// holds exactly that prefix of the image.
    pub fn write<T: MemValue>(&mut self, address: usize, value: &T) -> (r: Result<usize, mm_error>)
        ensures
            final(self).read_addrs() == old(self).read_addrs(),
            final(self).write_addrs() == old(self).write_addrs().push(address),
            exists|k: int|
                0 <= k <= T::byte_len() && final(self).mem() == store_bytes(
                    old(self).mem(),
                    address as int,
                    T::to_bytes(*value).take(k),
                ),
            match r {
                Ok(k) => k <= T::byte_len() && final(self).mem() == store_bytes(
                    old(self).mem(),
                    address as int,
                    T::to_bytes(*value).take(k as int),
                ),
                Err(e) => match e {
                    mm_error::WriteFailed { address: fa, status } => fa == address && status
                        != STATUS_SUCCESS,
                    _ => false,
                },
            },
    {
        let bytes = value.to_le_bytes();
        proof {
            T::lemma_round_trip(*value);
        }
        let (written, status) = self.source.write_mem(address, bytes.as_slice());
        if status != STATUS_SUCCESS {
            return Err(mm_error::WriteFailed { address, status });
        }
        Ok(written)
    }

    /// Fill `buffer` from `address`. A zero-length buffer performs no native
    /// call and returns zero. On success the returned count of bytes is a
    /// faithful prefix of target memory; the buffer keeps its length.
    pub fn read_bytes(&mut self, address: usize, buffer: &mut Vec<u8>) -> (r: Result<
        usize,
        mm_error,
    >)
        ensures
            final(self).mem() == old(self).mem(),
            final(self).write_addrs() == old(self).write_addrs(),
            old(buffer)@.len() > 0 ==> final(self).read_addrs() == old(self).read_addrs().push(
                address,
            ),
            final(buffer)@.len() == old(buffer)@.len(),
            old(buffer)@.len() == 0 ==> r == Ok::<usize, mm_error>(0usize) && *final(self)
                == *old(self) && final(buffer)@ == old(buffer)@,
            match r {
                Ok(k) => k <= old(buffer)@.len() && region_mapped(
                    old(self).mem(),
                    address as int,
                    k as nat,
                ) && final(buffer)@.take(k as int) == load_bytes(
                    old(self).mem(),
                    address as int,
                    k as nat,
                ),
                Err(e) => (match e {
                    mm_error::ReadFailed { address: fa, status } => fa == address && status
                        != STATUS_SUCCESS,
                    _ => false,
                }) && final(buffer)@ == old(buffer)@,
            },
    {
        if buffer.len() == 0 {
            return Ok(0);
        }
        let (data, got, status) = self.source.read_mem(address, buffer.len());
        if status != STATUS_SUCCESS {
            return Err(mm_error::ReadFailed { address, status });
        }
        *buffer = data;
        Ok(got)
    }

    /// Write `buffer` at `address`. A zero-length buffer performs no native
    /// call and returns zero. Whatever the outcome, memory afterwards holds
    /// some prefix of the buffer; on success, exactly the returned count.
    pub fn write_bytes(&mut self, address: usize, buffer: &[u8]) -> (r: Result<usize, mm_error>)
        ensures
            final(self).read_addrs() == old(self).read_addrs(),
            buffer@.len() > 0 ==> final(self).write_addrs() == old(self).write_addrs().push(
                address,
            ),
            exists|k: int|
                0 <= k <= buffer@.len() && final(self).mem() == store_bytes(
                    old(self).mem(),
                    address as int,
                    buffer@.take(k),
                ),
            buffer@.len() == 0 ==> r == Ok::<usize, mm_error>(0usize) && *final(self) == *old(self),
            match r {
                Ok(k) => k <= buffer@.len() && final(self).mem() == store_bytes(
                    old(self).mem(),
                    address as int,
                    buffer@.take(k as int),
                ),
                Err(e) => match e {
                    mm_error::WriteFailed { address: fa, status } => fa == address && status
                        != STATUS_SUCCESS,
                    _ => false,
                },
            },
    {
        if buffer.len() == 0 {
            proof {
                lemma_store_bytes_empty(self.mem(), address as int, buffer@.take(0));
                assert(store_bytes(self.mem(), address as int, buffer@.take(0)) == self.mem());
            }
            return Ok(0);
        }
        let (written, status) = self.source.write_mem(address, buffer);
        if status != STATUS_SUCCESS {
            return Err(mm_error::WriteFailed { address, status });
        }
        Ok(written)
    }

    /// Allocate `size` bytes, read from `address`, and truncate to what was
    /// actually read: a short native read yields a shorter vector, not an
    /// error.
    pub fn read_bytes_vec(&mut self, address: usize, size: usize) -> (r: Result<Vec<u8>, mm_error>)
        ensures
            final(self).mem() == old(self).mem(),
            final(self).write_addrs() == old(self).write_addrs(),
            size == 0 ==> *final(self) == *old(self),
            size > 0 ==> final(self).read_addrs() == old(self).read_addrs().push(address),
            match r {
                Ok(v) => v@.len() <= size && region_mapped(
                    old(self).mem(),
                    address as int,
                    v@.len() as nat,
                ) && v@ == load_bytes(old(self).mem(), address as int, v@.len() as nat),
                Err(e) => match e {
                    mm_error::ReadFailed { address: fa, status } => fa == address && status
                        != STATUS_SUCCESS,
                    _ => false,
                },
            },
            size == 0 ==> (r matches Ok(v) && v@.len() == 0),
    {
        let mut buffer: Vec<u8> = Vec::new();
        while buffer.len() < size
            invariant
                buffer@.len() <= size,
            decreases size - buffer@.len(),
        {
            buffer.push(0);
        }
        let got = match self.read_bytes(address, &mut buffer) {
            Ok(k) => k,
            Err(e) => {
                return Err(e);
            },
        };
        buffer.truncate(got);
        proof {
            assert(buffer@ =~= load_bytes(old(self).mem(), address as int, got as nat));
        }
        Ok(buffer)
    }

    /// Resolve a pointer chain from `base`: add each offset with wraparound,
    /// dereferencing the current address before every offset but the last.
    /// An empty chain is `base` itself; a single-offset chain dereferences
    /// nothing.
    pub fn read_pointer_chain(&mut self, base: usize, offsets: &[usize]) -> (r: Result<
        usize,
        mm_error,
    >)
        ensures
            final(self).mem() == old(self).mem(),
            final(self).write_addrs() == old(self).write_addrs(),
            offsets@.len() <= 1 ==> *final(self) == *old(self),
            offsets@.len() >= 1 ==> final(self).read_addrs().len() <= old(
                self,
            ).read_addrs().len() + offsets@.len() - 1,
            (r matches Ok(_) && offsets@.len() >= 2) ==> final(self).read_addrs().len() == old(
                self,
            ).read_addrs().len() + offsets@.len() - 1,
            offsets@.len() == 0 ==> r == Ok::<usize, mm_error>(base),
            offsets@.len() == 1 ==> r == Ok::<usize, mm_error>(wrap_add(base, offsets@[0])),
            match r {
                Ok(a) => chain_resolve(old(self).mem(), base, offsets@) == Some(a),
                Err(e) => match e {
                    mm_error::ReadFailed { .. } => true,
                    mm_error::InvalidBufferSize { .. } => true,
                    _ => false,
                },
            },
    {
        let ghost m = self.mem();
        let mut address = base;
        let n = offsets.len();
        let mut idx: usize = 0;
        proof {
            assert(offsets@.skip(0) =~= offsets@);
        }
        while idx < n
            invariant
                n == offsets@.len(),
                idx <= n,
                m == old(self).mem(),
                self.mem() == m,
                self.write_addrs() == old(self).write_addrs(),
                n <= 1 ==> *self == *old(self),
                (idx < n || n == 0) ==> self.read_addrs().len() == old(self).read_addrs().len()
                    + idx,
                (idx == n && n > 0) ==> self.read_addrs().len() == old(self).read_addrs().len() + n
                    - 1,
                idx < n ==> chain_resolve(m, base, offsets@) == chain_resolve(
                    m,
                    address,
                    offsets@.skip(idx as int),
                ),
                idx == n ==> chain_resolve(m, base, offsets@) == Some(address),
                n == 0 ==> address == base,
                n == 1 && idx == 1 ==> address == wrap_add(base, offsets@[0]),
            decreases n - idx,
        {
            let ghost pre = address;
            let off = offsets[idx];
            address = address.wrapping_add(off);
            proof {
                assert(address == wrap_add(pre, off));
                assert(offsets@.skip(idx as int)[0] == offsets@[idx as int]);
            }
            if idx + 1 < n {
                let v = match self.read::<usize>(address) {
                    Ok(v) => v,
                    Err(e) => {
                        return Err(e);
                    },
                };
                proof {
                    assert(offsets@.skip(idx as int).drop_first() =~= offsets@.skip(idx as int + 1));
                    assert(v == deref_at(m, address));
                }
                address = v;
            } else {
                proof {
                    assert(offsets@.skip(idx as int).len() == 1);
                }
            }
            idx = idx + 1;
        }
        Ok(address)
    }


    /// Read up to `max_length` bytes at `address`, truncate at the first
    /// null byte (or the end of what was read), and decode as UTF-8. A
    /// decode failure reports the requested length against the null
    /// position, through the buffer-size error kind.
    pub fn read_string(&mut self, address: usize, max_length: usize) -> (r: Result<
        String,
        mm_error,
    >)
        ensures
            final(self).mem() == old(self).mem(),
            final(self).write_addrs() == old(self).write_addrs(),
            max_length == 0 ==> *final(self) == *old(self),
            max_length > 0 ==> final(self).read_addrs() == old(self).read_addrs().push(address),
            match r {
                Ok(s) => exists|k: nat|
                    k <= max_length && #[trigger] region_mapped(old(self).mem(), address as int, k)
                        && ({
                        let b = load_bytes(old(self).mem(), address as int, k);
                        valid_utf8(b.take(first_nul(b))) && s@ == decode_utf8(b.take(first_nul(b)))
                    }),
                Err(e) => match e {
                    mm_error::ReadFailed { address: fa, status } => fa == address && status
                        != STATUS_SUCCESS,
                    mm_error::InvalidBufferSize { expected, actual } => expected == max_length
                        && exists|k: nat|
                        k <= max_length && #[trigger] region_mapped(
                            old(self).mem(),
                            address as int,
                            k,
                        ) && ({
                            let b = load_bytes(old(self).mem(), address as int, k);
                            !valid_utf8(b.take(first_nul(b))) && actual == first_nul(b)
                        }),
                    _ => false,
                },
            },
    {
        let buffer = match self.read_bytes_vec(address, max_length) {
            Ok(b) => b,
            Err(e) => {
                return Err(e);
            },
        };
        proof {
            lemma_first_nul_props(buffer@);
        }
        decode_narrow(buffer, max_length)
    }

    /// Write the UTF-8 bytes of `string` followed by one null terminator.
    pub fn write_string(&mut self, address: usize, string: &str) -> (r: Result<usize, mm_error>)
        ensures
            final(self).read_addrs() == old(self).read_addrs(),
            final(self).write_addrs() == old(self).write_addrs().push(address),
            match r {
                Ok(k) => k <= encode_utf8(string@).len() + 1 && final(self).mem() == store_bytes(
                    old(self).mem(),
                    address as int,
                    encode_utf8(string@).push(0).take(k as int),
                ),
                Err(e) => match e {
                    mm_error::WriteFailed { address: fa, status } => fa == address && status
                        != STATUS_SUCCESS,
                    _ => false,
                },
            },
    {
        let sb = string.as_bytes();
        let mut bytes: Vec<u8> = Vec::new();
        let mut i: usize = 0;
        proof {
            assert(bytes@ =~= sb@.take(0));
        }
        while i < sb.len()
            invariant
                i <= sb@.len(),
                bytes@ == sb@.take(i as int),
            decreases sb@.len() - i,
        {
            bytes.push(sb[i]);
            proof {
                assert(bytes@ =~= sb@.take(i as int + 1));
            }
            i = i + 1;
        }
        proof {
            assert(sb@.take(sb@.len() as int) =~= sb@);
        }
        bytes.push(0);
        proof {
            assert(bytes@ =~= encode_utf8(string@).push(0));
        }
        self.write_bytes(address, bytes.as_slice())
    }

    /// Read up to `max_chars` UTF-16 code units (two bytes each, little
    /// endian) at `address`, truncate at the first zero unit, and decode. A
    /// decode failure reports the requested character count against the
    /// zero-unit position.
    pub fn read_wstring(&mut self, address: usize, max_chars: usize) -> (r: Result<
        String,
        mm_error,
    >)
        requires
            max_chars * 2 <= usize::MAX,
        ensures
            final(self).mem() == old(self).mem(),
            final(self).write_addrs() == old(self).write_addrs(),
            max_chars == 0 ==> *final(self) == *old(self),
            max_chars > 0 ==> final(self).read_addrs() == old(self).read_addrs().push(address),
            match r {
                Ok(s) => exists|k: nat|
                    k <= max_chars * 2 && #[trigger] region_mapped(old(self).mem(), address as int, k)
                        && ({
                        let us = units_of_bytes(load_bytes(old(self).mem(), address as int, k));
                        us.take(first_nul_u16(us)) == utf16_code_units(s@)
                    }),
                Err(e) => match e {
                    mm_error::ReadFailed { address: fa, status } => fa == address && status
                        != STATUS_SUCCESS,
                    mm_error::InvalidBufferSize { expected, actual } => expected == max_chars
                        && exists|k: nat|
                        k <= max_chars * 2 && #[trigger] region_mapped(
                            old(self).mem(),
                            address as int,
                            k,
                        ) && ({
                            let us = units_of_bytes(
                                load_bytes(old(self).mem(), address as int, k),
                            );
                            !(exists|t: Seq<char>|
                                us.take(first_nul_u16(us)) == utf16_code_units(t)) && actual
                                == first_nul_u16(us)
                        }),
                    _ => false,
                },
            },
    {
        let byte_count = max_chars * 2;
        let buffer = match self.read_bytes_vec(address, byte_count) {
            Ok(b) => b,
            Err(e) => {
                return Err(e);
            },
        };
        proof {
            lemma_first_nul_u16_props(units_of_bytes(buffer@));
            assert(buffer@.len() / 2 <= max_chars) by (nonlinear_arith)
                requires
                    buffer@.len() <= max_chars * 2,
            ;
        }
        decode_wide(buffer, max_chars)
    }

    /// Write the UTF-16 code units of `string`, little endian, followed by
    /// one zero unit.
    pub fn write_wstring(&mut self, address: usize, string: &str) -> (r: Result<usize, mm_error>)
        ensures
            final(self).read_addrs() == old(self).read_addrs(),
            final(self).write_addrs() == old(self).write_addrs().push(address),
            match r {
                Ok(k) => k <= wide_image(string@).len() && final(self).mem() == store_bytes(
                    old(self).mem(),
                    address as int,
                    wide_image(string@).take(k as int),
                ),
                Err(e) => match e {
                    mm_error::WriteFailed { address: fa, status } => fa == address && status
                        != STATUS_SUCCESS,
                    _ => false,
                },
            },
    {
        let bytes = encode_wide_terminated(string);
        self.write_bytes(address, bytes.as_slice())
    }

    /// Bind a fixed element type for repeated homogeneous operations.
    pub fn typed<T: MemValue>(self) -> (r: TypeReader<T, M>)
        ensures
            r.inner == self,
    {
        TypeReader { inner: self, marker: PhantomData }
    }
}

/// The addresses a `count`-element array access touches, in index order.
pub open spec fn array_addrs(address: usize, count: int, size: nat) -> Seq<usize> {
    Seq::new(count as nat, |i: int| (address + i * size) as usize)
}

/// The log grew by exactly the first `k` array addresses, for some
/// `k <= count`: accesses happen in index order and stop right after the
/// first failure, never touching a later element.
pub open spec fn addrs_extended_by_prefix(
    before: Seq<usize>,
    after: Seq<usize>,
    address: usize,
    count: int,
    size: nat,
) -> bool {
    exists|k: int| 0 <= k <= count && after == before + #[trigger] array_addrs(address, k, size)
}

/// A type-bound view of the accessor for homogeneous array I/O.
pub struct TypeReader<T: MemValue, M: MemorySource> {
    pub inner: mmg<M>,
    pub marker: PhantomData<T>,
}

impl<T: MemValue, M: MemorySource> TypeReader<T, M> {
    /// The view's current picture of the target's memory.
    pub open spec fn mem(&self) -> Map<int, u8> {
        self.inner.mem()
    }

    pub open spec fn read_addrs(&self) -> Seq<usize> {
        self.inner.read_addrs()
    }

    pub open spec fn write_addrs(&self) -> Seq<usize> {
        self.inner.write_addrs()
    }

    pub fn read(&mut self, address: usize) -> (r: Result<T, mm_error>)
        ensures
            final(self).mem() == old(self).mem(),
            final(self).read_addrs() == old(self).read_addrs().push(address),
            final(self).write_addrs() == old(self).write_addrs(),
            match r {
                Ok(v) => region_mapped(old(self).mem(), address as int, T::byte_len()) && v
                    == T::of_bytes(load_bytes(old(self).mem(), address as int, T::byte_len())),
                Err(e) => match e {
                    mm_error::ReadFailed { address: fa, status } => fa == address && status
                        != STATUS_SUCCESS,
                    mm_error::InvalidBufferSize { expected, actual } => expected == T::byte_len()
                        && actual < expected,
                    _ => false,
                },
            },
    {
        self.inner.read::<T>(address)
    }

    pub fn write(&mut self, address: usize, value: &T) -> (r: Result<usize, mm_error>)
        ensures
            final(self).read_addrs() == old(self).read_addrs(),
            final(self).write_addrs() == old(self).write_addrs().push(address),
            match r {
                Ok(k) => k <= T::byte_len() && final(self).mem() == store_bytes(
                    old(self).mem(),
                    address as int,
                    T::to_bytes(*value).take(k as int),
                ),
                Err(e) => match e {
                    mm_error::WriteFailed { address: fa, status } => fa == address && status
                        != STATUS_SUCCESS,
                    _ => false,
                },
            },
    {
        self.inner.write::<T>(address, value)
    }

    /// Read `count` elements with one typed read each, at `address + i *
    /// byte_len()` in index order, aborting on the first failure with no
    /// partial result.
    pub fn read_array(&mut self, address: usize, count: usize) -> (r: Result<Vec<T>, mm_error>)
        requires
            address + count * T::byte_len() <= usize::MAX,
        ensures
            final(self).mem() == old(self).mem(),
            final(self).write_addrs() == old(self).write_addrs(),
            count == 0 ==> *final(self) == *old(self),
            r matches Ok(_) ==> final(self).read_addrs() == old(self).read_addrs() + array_addrs(
                address,
                count as int,
                T::byte_len(),
            ),
            r matches Err(_) ==> addrs_extended_by_prefix(
                old(self).read_addrs(),
                final(self).read_addrs(),
                address,
                count as int,
                T::byte_len(),
            ),
            match r {
                Ok(vs) => vs@.len() == count && forall|j: int|
                    0 <= j < count ==> region_mapped(
                        old(self).mem(),
                        address + j * T::byte_len(),
                        T::byte_len(),
                    ) && #[trigger] vs@[j] == T::of_bytes(
                        load_bytes(old(self).mem(), address + j * T::byte_len(), T::byte_len()),
                    ),
                Err(e) => match e {
                    mm_error::ReadFailed { .. } => true,
                    mm_error::InvalidBufferSize { .. } => true,
                    _ => false,
                },
            },
    {
        let size = T::byte_size();
        let mut result: Vec<T> = Vec::new();
        let mut j: usize = 0;
        proof {
            assert(old(self).read_addrs() + array_addrs(address, 0, T::byte_len()) =~= old(
                self,
            ).read_addrs());
        }
        while j < count
            invariant
                j <= count,
                size == T::byte_len(),
                address + count * size <= usize::MAX,
                self.mem() == old(self).mem(),
                self.write_addrs() == old(self).write_addrs(),
                count == 0 ==> *self == *old(self),
                self.read_addrs() == old(self).read_addrs() + array_addrs(
                    address,
                    j as int,
                    T::byte_len(),
                ),
                result@.len() == j,
                forall|q: int|
                    0 <= q < j ==> #[trigger] region_mapped(
                        old(self).mem(),
                        address + q * T::byte_len(),
                        T::byte_len(),
                    ),
                forall|q: int|
                    0 <= q < j ==> #[trigger] result@[q] == T::of_bytes(
                        load_bytes(old(self).mem(), address + q * T::byte_len(), T::byte_len()),
                    ),
            decreases count - j,
        {
            proof {
                assert(j * size <= count * size && (j + 1) * size <= count * size)
                    by (nonlinear_arith)
                    requires
                        j < count,
                        0 <= size,
                ;
            }
            let a = address + j * size;
            let r = self.inner.read::<T>(a);
            proof {
                assert(array_addrs(address, j as int + 1, T::byte_len()) =~= array_addrs(
                    address,
                    j as int,
                    T::byte_len(),
                ).push(a));
                assert(self.read_addrs() =~= old(self).read_addrs() + array_addrs(
                    address,
                    j as int + 1,
                    T::byte_len(),
                ));
            }
            let v = match r {
                Ok(v) => v,
                Err(e) => {
                    proof {
                        assert(addrs_extended_by_prefix(
                            old(self).read_addrs(),
                            self.read_addrs(),
                            address,
                            count as int,
                            T::byte_len(),
                        ));
                    }
                    return Err(e);
                },
            };
            let ghost prev = result@;
            result.push(v);
            proof {
                assert(region_mapped(old(self).mem(), address + j * T::byte_len(), T::byte_len()));
                assert forall|q: int| 0 <= q < j + 1 implies #[trigger] result@[q] == T::of_bytes(
                    load_bytes(old(self).mem(), address + q * T::byte_len(), T::byte_len()),
                ) by {
                    if q < j {
                        assert(result@[q] == prev[q]);
                    } else {
                        assert(result@[q] == v);
                    }
                }
            }
            j = j + 1;
        }
        proof {
            assert forall|q: int| 0 <= q < count implies region_mapped(
                old(self).mem(),
                address + q * T::byte_len(),
                T::byte_len(),
            ) && #[trigger] result@[q] == T::of_bytes(
                load_bytes(old(self).mem(), address + q * T::byte_len(), T::byte_len()),
            ) by {
                assert(region_mapped(old(self).mem(), address + q * T::byte_len(), T::byte_len()));
                assert(result@[q] == T::of_bytes(
                    load_bytes(old(self).mem(), address + q * T::byte_len(), T::byte_len()),
                ));
            }
        }
        Ok(result)
    }

    /// Write every element with one typed write each, at `address + i *
    /// byte_len()` in index order, accumulating the bytes written and
    /// aborting on the first failure. When the total equals the full image
    /// size, memory holds the concatenated images.
    pub fn write_array(&mut self, address: usize, values: &[T]) -> (r: Result<usize, mm_error>)
        requires
            address + values@.len() * T::byte_len() <= usize::MAX,
        ensures
            final(self).read_addrs() == old(self).read_addrs(),
            values@.len() == 0 ==> r == Ok::<usize, mm_error>(0usize) && *final(self) == *old(
                self,
            ),
            r matches Ok(_) ==> final(self).write_addrs() == old(self).write_addrs()
                + array_addrs(address, values@.len() as int, T::byte_len()),
            r matches Err(_) ==> addrs_extended_by_prefix(
                old(self).write_addrs(),
                final(self).write_addrs(),
                address,
                values@.len() as int,
                T::byte_len(),
            ),
            match r {
                Ok(n) => n <= values@.len() * T::byte_len() && (n == values@.len() * T::byte_len()
                    ==> final(self).mem() == store_bytes(
                    old(self).mem(),
                    address as int,
                    concat_bytes(values@),
                )),
                Err(e) => match e {
                    mm_error::WriteFailed { .. } => true,
                    _ => false,
                },
            },
    {
        let ghost m0 = self.mem();
        let size = T::byte_size();
        let mut total: usize = 0;
        let mut j: usize = 0;
        proof {
            assert(old(self).write_addrs() + array_addrs(address, 0, T::byte_len()) =~= old(
                self,
            ).write_addrs());
        }
        while j < values.len()
            invariant
                j <= values@.len(),
                size == T::byte_len(),
                address + values@.len() * size <= usize::MAX,
                m0 == old(self).mem(),
                self.read_addrs() == old(self).read_addrs(),
                values@.len() == 0 ==> *self == *old(self),
                self.write_addrs() == old(self).write_addrs() + array_addrs(
                    address,
                    j as int,
                    T::byte_len(),
                ),
                total <= j * size,
                total == j * size ==> self.mem() == store_bytes(
                    m0,
                    address as int,
                    concat_bytes(values@.take(j as int)),
                ),
            decreases values@.len() - j,
        {
            proof {
                assert(j * size <= values@.len() * size && (j + 1) * size <= values@.len() * size)
                    by (nonlinear_arith)
                    requires
                        j < values@.len(),
                        0 <= size,
                ;
                lemma_concat_bytes_len::<T>(values@.take(j as int));
            }
            let a = address + j * size;
            let w = self.inner.write::<T>(a, &values[j]);
            proof {
                assert(array_addrs(address, j as int + 1, T::byte_len()) =~= array_addrs(
                    address,
                    j as int,
                    T::byte_len(),
                ).push(a));
                assert(self.write_addrs() =~= old(self).write_addrs() + array_addrs(
                    address,
                    j as int + 1,
                    T::byte_len(),
                ));
            }
            let k = match w {
                Ok(k) => k,
                Err(e) => {
                    proof {
                        assert(addrs_extended_by_prefix(
                            old(self).write_addrs(),
                            self.write_addrs(),
                            address,
                            values@.len() as int,
                            T::byte_len(),
                        ));
                    }
                    return Err(e);
                },
            };
            proof {
                T::lemma_round_trip(values@[j as int]);
            }
            proof {
                assert(total + k <= values@.len() * size) by (nonlinear_arith)
                    requires
                        total <= j * size,
                        k <= size,
                        j < values@.len(),
                        0 <= size,
                ;
            }
            let new_total = total + k;
            proof {
                if new_total == (j + 1) * size {
                    assert(total == j * size && k == size) by (nonlinear_arith)
                        requires
                            total <= j * size,
                            k <= size,
                            new_total == total + k,
                            new_total == (j + 1) * size,
                    ;
                    assert(T::to_bytes(values@[j as int]).take(size as int) =~= T::to_bytes(
                        values@[j as int],
                    ));
                    lemma_store_adjacent(
                        m0,
                        address as int,
                        concat_bytes(values@.take(j as int)),
                        T::to_bytes(values@[j as int]),
                    );
                    assert(values@.take(j as int + 1).drop_last() =~= values@.take(j as int));
                    assert(concat_bytes(values@.take(j as int + 1)) == concat_bytes(
                        values@.take(j as int),
                    ) + T::to_bytes(values@[j as int]));
                } else {
                    assert(new_total <= (j + 1) * size) by (nonlinear_arith)
                        requires
                            total <= j * size,
                            k <= size,
                            new_total == total + k,
                    ;
                }
            }
            total = new_total;
            j = j + 1;
        }
        proof {
            assert(values@.take(values@.len() as int) =~= values@);
        }
        Ok(total)
    }
}

} // verus!
