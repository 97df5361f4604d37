//! Native status-code classification and the access-right masks the handle
//! layer requests. An NTSTATUS is a 32-bit code whose top two bits give its
//! severity class; zero is the success sentinel.

use vstd::prelude::*;

verus! {

/// The success sentinel: any other status is a failure.
pub const STATUS_SUCCESS: i32 = 0;

/// Reported when a native copy transferred fewer bytes than requested.
pub const STATUS_PARTIAL_COPY: i32 = 0x8000_000Du32 as i32;

pub const PROCESS_VM_READ: u32 = 0x0010;

pub const PROCESS_VM_WRITE: u32 = 0x0020;

pub const PROCESS_VM_OPERATION: u32 = 0x0008;

pub const PROCESS_QUERY_INFORMATION: u32 = 0x0400;

/// The maximal rights needed for memory read/write/query/operation.
pub const PROCESS_ALL_ACCESS_MEMORY: u32 = PROCESS_VM_READ | PROCESS_VM_WRITE
    | PROCESS_VM_OPERATION | PROCESS_QUERY_INFORMATION;

/// Success class: zero and the informational/success range (top bit clear).
pub fn nt_success(status: i32) -> (r: bool)
    ensures
        r == (status >= 0),
{
    status >= 0
}

/// Informational class: severity bits are 01.
pub fn nt_information(status: i32) -> (r: bool)
    ensures
        r == (0x4000_0000u32 <= (status as u32) && (status as u32) < 0x8000_0000u32),
{
    let r = (status as u32 >> 30u32) == 1;
    proof {
        assert(((status as u32 >> 30u32) == 1) == (0x4000_0000u32 <= (status as u32) && (status as u32) < 0x8000_0000u32)) by (bit_vector);
    }
    r
}

/// Warning class: severity bits are 10.
pub fn nt_warning(status: i32) -> (r: bool)
    ensures
        r == (0x8000_0000u32 <= (status as u32) && (status as u32) < 0xC000_0000u32),
{
    let r = (status as u32 >> 30u32) == 2;
    proof {
        assert(((status as u32 >> 30u32) == 2) == (0x8000_0000u32 <= (status as u32) && (status as u32) < 0xC000_0000u32)) by (bit_vector);
    }
    r
}

/// Error class: severity bits are 11.
pub fn nt_error(status: i32) -> (r: bool)
    ensures
        r == (0xC000_0000u32 <= (status as u32)),
{
    let r = (status as u32 >> 30u32) == 3;
    proof {
        assert(((status as u32 >> 30u32) == 3) == (0xC000_0000u32 <= (status as u32))) by (bit_vector);
    }
    r
}

} // verus!
