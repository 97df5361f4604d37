//! An immutable description of one module loaded in the target process:
//! display name, base address, size in bytes and entry point, with pure
//! address-range queries. `base + size` is the exclusive upper bound of the
//! module's range; nothing ties the entry point to that range.

use vstd::prelude::*;

verus! {

#[derive(Debug, Clone)]
pub struct ModuleInfo {
    pub name: String,
    pub addy: usize,
    pub size: usize,
    pub entry_point: usize,
}

impl ModuleInfo {
    /// The address range fits in the address space, so `addy + size` is a
    /// meaningful exclusive end.
    pub open spec fn wf(&self) -> bool {
        self.addy + self.size <= usize::MAX
    }

    /// Half-open range membership: `addy <= address < addy + size`.
    pub open spec fn spec_contains(&self, address: usize) -> bool {
        self.addy <= address && (address as int) < self.addy + self.size
    }

    /// Offset from base, present exactly for contained addresses.
    pub open spec fn spec_address_to_index(&self, address: usize) -> Option<usize> {
        if self.spec_contains(address) {
            Some((address - self.addy) as usize)
        } else {
            None
        }
    }

    /// Absolute address of an offset, present exactly for offsets below `size`.
    pub open spec fn spec_index_to_address(&self, index: usize) -> Option<usize> {
        if index < self.size {
            Some((self.addy + index) as usize)
        } else {
            None
        }
    }

    pub fn new(name: String, addy: usize, size: usize, entry_point: usize) -> (r: Self)
        requires
            addy + size <= usize::MAX,
        ensures
            r == (ModuleInfo { name, addy, size, entry_point }),
            r.wf(),
    {
        ModuleInfo { name, addy, size, entry_point }
    }

    /// Exclusive end of the module's address range.
    pub fn end_address(&self) -> (r: usize)
        requires
            self.wf(),
        ensures
            r == self.addy + self.size,
    {
        self.addy + self.size
    }

    /// True iff `addy <= address < addy + size`.
    pub fn contains_address(&self, address: usize) -> (r: bool)
        requires
            self.wf(),
        ensures
            r == self.spec_contains(address),
    {
        address >= self.addy && address < self.end_address()
    }

    /// The offset of `address` from the base, iff the module contains it.
    pub fn address_to_index(&self, address: usize) -> (r: Option<usize>)
        requires
            self.wf(),
        ensures
            r == self.spec_address_to_index(address),
    {
        if self.contains_address(address) {
            Some(address - self.addy)
        } else {
            None
        }
    }

    /// The absolute address of `index`, iff `index < size`.
    pub fn index_to_address(&self, index: usize) -> (r: Option<usize>)
        requires
            self.wf(),
        ensures
            r == self.spec_index_to_address(index),
    {
        if index < self.size {
            Some(self.addy + index)
        } else {
            None
        }
    }
}

/// `address_to_index` and `index_to_address` are mutual inverses: a contained
/// address maps to an offset that maps back to it, an offset below `size`
/// maps to an address that maps back to it, and both are absent outside the
/// module's range.
pub proof fn lemma_offset_address_inverse(m: ModuleInfo, address: usize, index: usize)
    requires
        m.wf(),
    ensures
        m.spec_contains(address) ==> m.spec_address_to_index(address) == Some(
            (address - m.addy) as usize,
        ) && m.spec_index_to_address((address - m.addy) as usize) == Some(address),
        !m.spec_contains(address) ==> m.spec_address_to_index(address) is None,
        index < m.size ==> m.spec_index_to_address(index) == Some((m.addy + index) as usize)
            && m.spec_address_to_index((m.addy + index) as usize) == Some(index),
        index >= m.size ==> m.spec_index_to_address(index) is None,
{
}

} // verus!
