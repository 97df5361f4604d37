use mm::error::mm_error;
use mm::memory::mmg;
use mm::source::MockMemory;
use mm::text::names_equal_ci;

fn accessor(size: usize) -> mmg<MockMemory> {
    mmg::new(MockMemory::new(0x1000, vec![0u8; size]))
}

#[test]
fn narrow_string_round_trip() {
    let mut g = accessor(64);
    let written = g.write_string(0x1000, "Hello").unwrap();
    assert_eq!(written, 6);
    assert_eq!(g.read_string(0x1000, 6).unwrap(), "Hello");
}

#[test]
fn narrow_string_writes_terminated_utf8() {
    let mut g = accessor(16);
    g.write_string(0x1000, "Hé").unwrap();
    let bytes = g.read_bytes_vec(0x1000, 4).unwrap();
    assert_eq!(bytes, vec![0x48, 0xC3, 0xA9, 0x00]);
}

#[test]
fn narrow_string_truncates_at_first_nul() {
    let mut g = accessor(16);
    g.write_bytes(0x1000, b"ab\0cd").unwrap();
    assert_eq!(g.read_string(0x1000, 5).unwrap(), "ab");
}

#[test]
fn narrow_decode_failure_reports_nul_position() {
    let mut g = accessor(16);
    g.write_bytes(0x1000, &[0xFF, 0xFE, 0x00]).unwrap();
    match g.read_string(0x1000, 3) {
        Err(mm_error::InvalidBufferSize { expected, actual }) => {
            assert_eq!(expected, 3);
            assert_eq!(actual, 2);
        },
        other => panic!("expected a decode failure, got {:?}", other),
    }
}

#[test]
fn empty_narrow_string_round_trip() {
    let mut g = accessor(4);
    assert_eq!(g.write_string(0x1000, "").unwrap(), 1);
    assert_eq!(g.read_string(0x1000, 1).unwrap(), "");
}

#[test]
fn wide_string_round_trip() {
    let mut g = accessor(64);
    let s = "Wide ✓ text";
    let units = s.encode_utf16().count();
    let written = g.write_wstring(0x1000, s).unwrap();
    assert_eq!(written, (units + 1) * 2);
    assert_eq!(g.read_wstring(0x1000, units + 1).unwrap(), s);
}

#[test]
fn wide_string_round_trip_with_surrogate_pair() {
    let mut g = accessor(32);
    let s = "a😀b";
    g.write_wstring(0x1000, s).unwrap();
    assert_eq!(g.read_wstring(0x1000, 8).unwrap(), s);
}

#[test]
fn wide_string_writes_little_endian_units() {
    let mut g = accessor(16);
    g.write_wstring(0x1000, "AB").unwrap();
    let bytes = g.read_bytes_vec(0x1000, 6).unwrap();
    assert_eq!(bytes, vec![0x41, 0x00, 0x42, 0x00, 0x00, 0x00]);
}

#[test]
fn wide_decode_failure_reports_unit_position() {
    let mut g = accessor(16);
    // a lone high surrogate before the terminator is not well-formed UTF-16
    g.write_bytes(0x1000, &[0x00, 0xD8, 0x00, 0x00]).unwrap();
    match g.read_wstring(0x1000, 2) {
        Err(mm_error::InvalidBufferSize { expected, actual }) => {
            assert_eq!(expected, 2);
            assert_eq!(actual, 1);
        },
        other => panic!("expected a decode failure, got {:?}", other),
    }
}

#[test]
fn case_insensitive_name_comparison() {
    assert!(names_equal_ci("Target.EXE", "target.exe"));
    assert!(names_equal_ci("abc", "abc"));
    assert!(!names_equal_ci("abc.exe", "abd.exe"));
    assert!(!names_equal_ci("abc", "abcd"));
}
