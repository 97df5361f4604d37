use mm::error::mm_error;
use mm::module::ModuleInfo;
use mm::ntapi::{
    nt_error, nt_information, nt_success, nt_warning, STATUS_PARTIAL_COPY, STATUS_SUCCESS,
};

#[test]
fn retryable_only_for_read_write_failures() {
    assert!(mm_error::ReadFailed { address: 0x10, status: -1 }.is_retryable());
    assert!(mm_error::WriteFailed { address: 0x10, status: -1 }.is_retryable());
    assert!(!mm_error::ProcessEnumFailed(5).is_retryable());
    assert!(!mm_error::InvalidBufferSize { expected: 4, actual: 2 }.is_retryable());
    assert!(!mm_error::NullPointer.is_retryable());
    assert!(!mm_error::InvalidHandle.is_retryable());
    assert!(!mm_error::AccessDenied.is_retryable());
    assert!(!mm_error::MemoryNotAccessable(0x1000).is_retryable());
    assert!(!mm_error::ProcessOpenFailed(String::from("x")).is_retryable());
}

#[test]
fn ntstatus_present_for_native_failures_only() {
    assert_eq!(mm_error::ReadFailed { address: 1, status: -7 }.ntstatus(), Some(-7));
    assert_eq!(mm_error::WriteFailed { address: 1, status: 3 }.ntstatus(), Some(3));
    assert_eq!(mm_error::ProcessEnumFailed(-2).ntstatus(), Some(-2));
    assert_eq!(mm_error::ModuleNotFound(String::from("a")).ntstatus(), None);
    assert_eq!(mm_error::ModuleEnumFailed(6).ntstatus(), None);
    assert_eq!(mm_error::WindowsApiError(6).ntstatus(), None);
    assert_eq!(mm_error::InvalidBufferSize { expected: 4, actual: 0 }.ntstatus(), None);
}

#[test]
fn status_severity_classes() {
    assert!(nt_success(STATUS_SUCCESS));
    assert!(nt_success(0x3FFF_FFFF));
    assert!(!nt_success(-1));
    assert!(nt_information(0x4000_0000u32 as i32));
    assert!(!nt_information(STATUS_SUCCESS));
    assert!(nt_warning(STATUS_PARTIAL_COPY));
    assert!(nt_warning(0x8000_0000u32 as i32));
    assert!(!nt_warning(0x4000_0000u32 as i32));
    assert!(nt_error(0xC000_0005u32 as i32));
    assert!(!nt_error(STATUS_PARTIAL_COPY));
}

#[test]
fn module_range_queries() {
    let m = ModuleInfo::new(String::from("app.exe"), 0x40_0000, 0x1000, 0x40_1000);
    assert_eq!(m.end_address(), 0x40_1000);
    assert!(m.contains_address(0x40_0000));
    assert!(m.contains_address(0x40_0FFF));
    assert!(!m.contains_address(0x40_1000));
    assert!(!m.contains_address(0x3F_FFFF));
}

#[test]
fn module_offset_address_inverses() {
    let m = ModuleInfo::new(String::from("app.exe"), 0x40_0000, 0x1000, 0x40_1000);
    assert_eq!(m.address_to_index(0x40_0010), Some(0x10));
    assert_eq!(m.index_to_address(0x10), Some(0x40_0010));
    assert_eq!(m.address_to_index(0x40_1000), None);
    assert_eq!(m.index_to_address(0x1000), None);
    // mutual inverses within range
    for idx in [0usize, 1, 0xFFF] {
        let a = m.index_to_address(idx).unwrap();
        assert_eq!(m.address_to_index(a), Some(idx));
    }
}
