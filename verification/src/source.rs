//! The abstract model of the host OS virtual-memory API, and an in-memory
//! source for exercising the layers above it.
//!
//! Target-process memory is modelled as a partial map from addresses to
//! bytes. A source of memory (the live OS boundary, or the in-memory
//! [`MockMemory`]) exposes one raw read and one raw write call, each
//! returning a count of bytes actually transferred and a native status code
//! whose success sentinel is zero. A read or write may fail, or succeed
//! with fewer bytes than requested, at the source's discretion; the
//! contracts here pin down only what every outcome must satisfy.

use vstd::prelude::*;

verus! {

/// The `n` bytes of `m` starting at address `a`.
pub open spec fn load_bytes(m: Map<int, u8>, a: int, n: nat) -> Seq<u8> {
    Seq::new(n, |i: int| m[a + i])
}

/// All of `a..a+n` is mapped in `m`.
pub open spec fn region_mapped(m: Map<int, u8>, a: int, n: nat) -> bool {
    forall|i: int| 0 <= i < n ==> #[trigger] m.dom().contains(a + i)
}

/// `m` with the bytes `bs` written starting at address `a`.
pub open spec fn store_bytes(m: Map<int, u8>, a: int, bs: Seq<u8>) -> Map<int, u8> {
    Map::new(
        |x: int| m.dom().contains(x) || (a <= x < a + bs.len()),
        |x: int|
            if a <= x < a + bs.len() {
                bs[x - a]
            } else {
                m[x]
            },
    )
}

/// Storing no bytes changes nothing.
pub proof fn lemma_store_bytes_empty(m: Map<int, u8>, a: int, bs: Seq<u8>)
    requires
        bs.len() == 0,
    ensures
        store_bytes(m, a, bs) == m,
{
    assert(store_bytes(m, a, bs) =~= m);
}

/// What was just stored is loaded back unchanged, and its region is mapped.
pub proof fn lemma_load_store(m: Map<int, u8>, a: int, bs: Seq<u8>)
    ensures
        region_mapped(store_bytes(m, a, bs), a, bs.len()),
        load_bytes(store_bytes(m, a, bs), a, bs.len()) == bs,
{
    assert(load_bytes(store_bytes(m, a, bs), a, bs.len()) =~= bs);
}

/// Two stores at adjacent addresses are one store of the concatenation.
pub proof fn lemma_store_adjacent(m: Map<int, u8>, a: int, b1: Seq<u8>, b2: Seq<u8>)
    ensures
        store_bytes(store_bytes(m, a, b1), a + b1.len(), b2) == store_bytes(m, a, b1 + b2),
{
    assert(store_bytes(store_bytes(m, a, b1), a + b1.len(), b2) =~= store_bytes(m, a, b1 + b2));
}

/// One raw read and one raw write against a target process's memory.
///
/// `read_mem` returns `(buffer, bytes_read, status)`: the buffer always has
/// the requested length, and on a success status its first `bytes_read`
/// bytes are the mapped contents at the requested address. `write_mem`
/// returns `(bytes_written, status)`: whatever the outcome, memory afterwards
/// is the old memory with some prefix of the data stored, and on a success
/// status that prefix is exactly `bytes_written` long. Neither call promises
/// success: a live target can refuse or truncate any access.
pub trait MemorySource: Sized {
    /// The current contents of the target's address space. The default is
    /// the empty model: a live, unverified source may leave it, since no
    /// proof is conducted about such a source; a modelled source overrides
    /// it.
    open spec fn mem(&self) -> Map<int, u8> {
        Map::empty()
    }

    /// Every raw read call so far, by requested address, in order; likewise
    /// for writes. Each call appends exactly one entry, so the accessor's
    /// call-count guarantees (no call for an empty buffer, one dereference
    /// per non-final chain offset, array accesses in index order up to the
    /// first failure) are stated in contracts. The defaults are empty: a
    /// live source keeps no log, and no proof is conducted about one; the
    /// in-memory source overrides them with its real logs.
    open spec fn read_addrs(&self) -> Seq<usize> {
        Seq::empty()
    }

    open spec fn write_addrs(&self) -> Seq<usize> {
        Seq::empty()
    }

    fn read_mem(&mut self, address: usize, len: usize) -> (r: (Vec<u8>, usize, i32))
        ensures
            final(self).mem() == old(self).mem(),
            final(self).read_addrs() == old(self).read_addrs().push(address),
            final(self).write_addrs() == old(self).write_addrs(),
            r.0@.len() == len,
            r.1 <= len,
            r.2 == 0 ==> region_mapped(old(self).mem(), address as int, r.1 as nat)
                && r.0@.take(r.1 as int) == load_bytes(old(self).mem(), address as int, r.1 as nat),
    ;

    fn write_mem(&mut self, address: usize, data: &[u8]) -> (r: (usize, i32))
        ensures
            final(self).read_addrs() == old(self).read_addrs(),
            final(self).write_addrs() == old(self).write_addrs().push(address),
            r.0 <= data@.len(),
            exists|k: int|
                0 <= k <= data@.len() && final(self).mem() == store_bytes(
                    old(self).mem(),
                    address as int,
                    data@.take(k),
                ),
            r.1 == 0 ==> final(self).mem() == store_bytes(
                old(self).mem(),
                address as int,
                data@.take(r.0 as int),
            ),
    ;
}

/// The status the in-memory source reports for an access outside its range.
pub const MOCK_FAILURE_STATUS: i32 = 0xC000_0005u32 as i32;

/// An in-memory [`MemorySource`]: one contiguous mapped region starting at
/// `base`, plus counters and logs of every raw call, and an optional
/// short-read injection (each successful read withholds `short_read` bytes
/// while still reporting success, as a native partial copy would).
pub struct MockMemory {
    pub base: usize,
    pub data: Vec<u8>,
    pub short_read: usize,
    pub reads: usize,
    pub writes: usize,
    pub read_log: Vec<usize>,
    pub write_log: Vec<usize>,
}

impl MockMemory {
    pub fn new(base: usize, data: Vec<u8>) -> (r: Self)
        ensures
            r.base == base,
            r.data == data,
            r.short_read == 0,
            r.reads == 0,
            r.writes == 0,
            r.read_log@ == Seq::<usize>::empty(),
            r.write_log@ == Seq::<usize>::empty(),
    {
        MockMemory {
            base,
            data,
            short_read: 0,
            reads: 0,
            writes: 0,
            read_log: Vec::new(),
            write_log: Vec::new(),
        }
    }
}

impl MemorySource for MockMemory {
    /// The mapped region is exactly `base .. base + data.len()`.
    open spec fn mem(&self) -> Map<int, u8> {
        Map::new(
            |x: int| self.base <= x < self.base + self.data@.len(),
            |x: int| self.data@[x - self.base],
        )
    }

    open spec fn read_addrs(&self) -> Seq<usize> {
        self.read_log@
    }

    open spec fn write_addrs(&self) -> Seq<usize> {
        self.write_log@
    }

    fn read_mem(&mut self, address: usize, len: usize) -> (r: (Vec<u8>, usize, i32)) {
        self.reads = self.reads.saturating_add(1);
        self.read_log.push(address);
        proof {
            assert(self.mem() =~= old(self).mem());
        }
        let in_range = address >= self.base && len <= self.data.len() && address - self.base
            <= self.data.len() - len;
        if !in_range {
            let mut out: Vec<u8> = Vec::new();
            while out.len() < len
                invariant
                    out@.len() <= len,
                    out@ == Seq::new(out@.len(), |i: int| 0u8),
                decreases len - out@.len(),
            {
                out.push(0);
                assert(out@ =~= Seq::new(out@.len(), |i: int| 0u8));
            }
            return (out, 0, MOCK_FAILURE_STATUS);
        }
        let got = if self.short_read > len {
            0
        } else {
            len - self.short_read
        };
        let off = address - self.base;
        let mut out: Vec<u8> = Vec::new();
        assert(out@ =~= load_bytes(self.mem(), address as int, out@.len() as nat));
        while out.len() < got
            invariant
                got <= len,
                len <= self.data@.len(),
                self.data@.len() <= usize::MAX,
                off == address - self.base,
                self.base <= address,
                off + len <= self.data@.len(),
                out@.len() <= got,
                out@ == load_bytes(self.mem(), address as int, out@.len() as nat),
            decreases got - out@.len(),
        {
            let i = out.len();
            out.push(self.data[off + i]);
            assert(out@ =~= load_bytes(self.mem(), address as int, out@.len() as nat));
        }
        while out.len() < len
            invariant
                got <= out@.len() <= len,
                out@.take(got as int) == load_bytes(self.mem(), address as int, got as nat),
            decreases len - out@.len(),
        {
            out.push(0);
            assert(out@.take(got as int) =~= load_bytes(self.mem(), address as int, got as nat));
        }
        assert(region_mapped(self.mem(), address as int, got as nat));
        (out, got, 0)
    }

    fn write_mem(&mut self, address: usize, data: &[u8]) -> (r: (usize, i32)) {
        self.writes = self.writes.saturating_add(1);
        self.write_log.push(address);
        let len = data.len();
        let in_range = address >= self.base && len <= self.data.len() && address - self.base
            <= self.data.len() - len;
        if !in_range {
            proof {
                lemma_store_bytes_empty(self.mem(), address as int, data@.take(0));
                assert(store_bytes(self.mem(), address as int, data@.take(0)) == self.mem());
            }
            return (0, MOCK_FAILURE_STATUS);
        }
        let off = address - self.base;
        let ghost m0 = self.mem();
        proof {
            assert(m0 =~= old(self).mem());
            lemma_store_bytes_empty(m0, address as int, data@.take(0));
        }
        let mut i: usize = 0;
        while i < len
            invariant
                i <= len,
                len == data@.len(),
                off == address - self.base,
                self.base <= address,
                off + len <= self.data@.len(),
                self.data@.len() <= usize::MAX,
                self.base == old(self).base,
                self.data@.len() == old(self).data@.len(),
                self.read_log == old(self).read_log,
                self.write_log@ == old(self).write_log@.push(address),
                m0 == old(self).mem(),
                self.mem() == store_bytes(m0, address as int, data@.take(i as int)),
            decreases len - i,
        {
            let ghost prev = self.data@;
            let ghost premem = self.mem();
            self.data[off + i] = data[i];
            proof {
                assert(self.data@ == prev.update(off + i, data@[i as int]));
                assert forall|x: int| #[trigger] self.mem().dom().contains(x) implies self.mem()[x]
                    == store_bytes(m0, address as int, data@.take(i + 1))[x] by {
                    if x == address + i {
                        assert(self.mem()[x] == data@[i as int]);
                    } else {
                        assert(self.mem()[x] == premem[x]);
                        assert(premem[x] == store_bytes(m0, address as int, data@.take(i as int))[x]);
                    }
                }
                assert(self.mem() =~= store_bytes(m0, address as int, data@.take(i + 1)));
            }
            i = i + 1;
        }
        assert(data@.take(len as int) =~= data@);
        (len, 0)
    }
}

} // verus!
