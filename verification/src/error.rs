//! The closed error taxonomy for process-memory operations.

use vstd::prelude::*;

verus! {

/// Every failure a memory, module or process operation can surface.
/// Read/write failures keep the address and the raw native status code;
/// buffer-size failures keep the expected and actual byte counts.
#[allow(non_camel_case_types)]
#[derive(Debug, Clone)]
pub enum mm_error {
    ProcessOpenFailed(String),
    ProcessNotFound(String),
    ProcessEnumFailed(i32),
    ModuleNotFound(String),
    ModuleEnumFailed(u32),
    ReadFailed { address: usize, status: i32 },
    WriteFailed { address: usize, status: i32 },
    InvalidBufferSize { expected: usize, actual: usize },
    NullPointer,
    InvalidHandle,
    AccessDenied,
    MemoryNotAccessable(usize),
    WindowsApiError(u32),
}

/// The native status code an error carries, if it carries one: read and
/// write failures and process-enumeration failures preserve the raw code.
pub open spec fn spec_native_code(e: mm_error) -> Option<i32> {
    match e {
        mm_error::ReadFailed { status, .. } => Some(status),
        mm_error::WriteFailed { status, .. } => Some(status),
        mm_error::ProcessEnumFailed(status) => Some(status),
        _ => None,
    }
}

impl mm_error {
    /// True exactly for read and write failures: those can stem from a
    /// transient race with the target process and may be re-issued.
    pub fn is_retryable(&self) -> (r: bool)
        ensures
            r == ((*self) matches mm_error::ReadFailed { .. } || (*self)
                matches mm_error::WriteFailed { .. }),
    {
        matches!(self, mm_error::ReadFailed { .. } | mm_error::WriteFailed { .. })
    }

    /// The raw native status code, present for read/write/enumeration
    /// failures and absent otherwise.
    pub fn ntstatus(&self) -> (r: Option<i32>)
        ensures
            r == spec_native_code(*self),
    {
        match self {
            mm_error::ReadFailed { status, .. } => Some(*status),
            mm_error::WriteFailed { status, .. } => Some(*status),
            mm_error::ProcessEnumFailed(status) => Some(*status),
            _ => None,
        }
    }
}

} // verus!
