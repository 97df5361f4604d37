use mm::error::mm_error;
use mm::memory::mmg;
use mm::source::{MockMemory, MOCK_FAILURE_STATUS};

fn region(base: usize, size: usize) -> MockMemory {
    MockMemory::new(base, vec![0u8; size])
}

#[test]
fn value_round_trip_u32() {
    let mut g = mmg::new(region(0x1000, 64));
    assert_eq!(g.write::<u32>(0x1010, &0xDEAD_BEEF).unwrap(), 4);
    assert_eq!(g.read::<u32>(0x1010).unwrap(), 0xDEAD_BEEF);
}

#[test]
fn value_round_trip_various_widths() {
    let mut g = mmg::new(region(0x2000, 64));
    assert_eq!(g.write::<u8>(0x2000, &0xABu8).unwrap(), 1);
    assert_eq!(g.read::<u8>(0x2000).unwrap(), 0xAB);
    assert_eq!(g.write::<u16>(0x2002, &0xBEEFu16).unwrap(), 2);
    assert_eq!(g.read::<u16>(0x2002).unwrap(), 0xBEEF);
    assert_eq!(g.write::<u64>(0x2008, &0x0102_0304_0506_0708u64).unwrap(), 8);
    assert_eq!(g.read::<u64>(0x2008).unwrap(), 0x0102_0304_0506_0708);
    assert_eq!(g.write::<usize>(0x2010, &0x1234_5678usize).unwrap(), 8);
    assert_eq!(g.read::<usize>(0x2010).unwrap(), 0x1234_5678);
    assert_eq!(g.write::<i32>(0x2018, &-7i32).unwrap(), 4);
    assert_eq!(g.read::<i32>(0x2018).unwrap(), -7);
    assert_eq!(g.write::<i64>(0x2020, &-1_000_000_000_000i64).unwrap(), 8);
    assert_eq!(g.read::<i64>(0x2020).unwrap(), -1_000_000_000_000);
}

#[test]
fn values_are_little_endian() {
    let mut g = mmg::new(region(0x1000, 8));
    g.write::<u32>(0x1000, &0x0403_0201).unwrap();
    let bytes = g.read_bytes_vec(0x1000, 4).unwrap();
    assert_eq!(bytes, vec![0x01, 0x02, 0x03, 0x04]);
}

#[test]
fn empty_buffers_do_no_native_calls() {
    let mut g = mmg::new(region(0x1000, 16));
    let mut empty: Vec<u8> = Vec::new();
    assert_eq!(g.read_bytes(0x1000, &mut empty).unwrap(), 0);
    assert_eq!(g.write_bytes(0x1000, &[]).unwrap(), 0);
    assert_eq!(g.source.reads, 0);
    assert_eq!(g.source.writes, 0);
}

#[test]
fn chain_with_no_offsets_is_base() {
    let mut g = mmg::new(region(0x1000, 16));
    assert_eq!(g.read_pointer_chain(0xDEAD, &[]).unwrap(), 0xDEAD);
    assert_eq!(g.source.reads, 0);
}

#[test]
fn chain_with_one_offset_adds_without_deref() {
    let mut g = mmg::new(region(0x1000, 16));
    assert_eq!(g.read_pointer_chain(0x4000, &[0x20]).unwrap(), 0x4020);
    assert_eq!(g.source.reads, 0);
}

#[test]
fn chain_offset_addition_wraps() {
    let mut g = mmg::new(region(0x1000, 16));
    assert_eq!(g.read_pointer_chain(usize::MAX, &[6]).unwrap(), 5);
    assert_eq!(g.source.reads, 0);
}

#[test]
fn chain_dereferences_all_but_last_offset() {
    let mut data = vec![0u8; 64];
    // the pointer stored at 0x1000 leads to 0x1010; the one at 0x1020 leads on
    data[0..8].copy_from_slice(&0x1010usize.to_le_bytes());
    data[0x20..0x28].copy_from_slice(&0x3000usize.to_le_bytes());
    let mut g = mmg::new(MockMemory::new(0x1000, data));
    let got = g.read_pointer_chain(0x1000, &[0x0, 0x10, 0x8]).unwrap();
    assert_eq!(got, 0x3008);
    assert_eq!(g.source.reads, 2);
    assert_eq!(g.source.read_log, vec![0x1000, 0x1020]);
}

#[test]
fn short_native_read_is_invalid_buffer_size() {
    let mut mock = region(0x1000, 16);
    mock.short_read = 1;
    let mut g = mmg::new(mock);
    match g.read::<u32>(0x1000) {
        Err(mm_error::InvalidBufferSize { expected, actual }) => {
            assert_eq!(expected, 4);
            assert_eq!(actual, 3);
        },
        other => panic!("expected a buffer-size failure, got {:?}", other.map(|_| ())),
    }
}

#[test]
fn failed_read_keeps_address_and_status() {
    let mut g = mmg::new(region(0x1000, 16));
    match g.read::<u32>(0x9000) {
        Err(e @ mm_error::ReadFailed { address, status }) => {
            assert_eq!(address, 0x9000);
            assert_eq!(status, MOCK_FAILURE_STATUS);
            assert!(e.is_retryable());
            assert_eq!(e.ntstatus(), Some(MOCK_FAILURE_STATUS));
        },
        other => panic!("expected a read failure, got {:?}", other.map(|_| ())),
    }
}

#[test]
fn read_bytes_vec_truncates_to_actual_read() {
    let mut mock = MockMemory::new(0x1000, (0u8..16).collect());
    mock.short_read = 2;
    let mut g = mmg::new(mock);
    let v = g.read_bytes_vec(0x1000, 8).unwrap();
    assert_eq!(v, vec![0, 1, 2, 3, 4, 5]);
}

#[test]
fn read_array_addresses_in_order_and_aborts_on_failure() {
    // only the first element's four bytes are mapped
    let mut tr = mmg::new(region(0x1000, 4)).typed::<u32>();
    let r = tr.read_array(0x1000, 4);
    assert!(matches!(r, Err(mm_error::ReadFailed { address: 0x1004, .. })));
    assert_eq!(tr.inner.source.reads, 2);
    assert_eq!(tr.inner.source.read_log, vec![0x1000, 0x1004]);
}

#[test]
fn typed_array_round_trip() {
    let mut tr = mmg::new(region(0x1000, 16)).typed::<u32>();
    let written = tr.write_array(0x1000, &[1, 2, 3, 4]).unwrap();
    assert_eq!(written, 16);
    assert_eq!(tr.read_array(0x1000, 4).unwrap(), vec![1, 2, 3, 4]);
    assert_eq!(tr.inner.source.write_log, vec![0x1000, 0x1004, 0x1008, 0x100C]);
}

#[test]
fn typed_view_single_value_round_trip() {
    let mut tr = mmg::new(region(0x1000, 8)).typed::<u16>();
    assert_eq!(tr.write(0x1002, &0x7777u16).unwrap(), 2);
    assert_eq!(tr.read(0x1002).unwrap(), 0x7777);
}

#[test]
fn byte_round_trip_and_lengths() {
    let mut g = mmg::new(region(0x1000, 8));
    assert_eq!(g.write_bytes(0x1002, &[9, 8, 7]).unwrap(), 3);
    let mut buf = vec![0u8; 3];
    assert_eq!(g.read_bytes(0x1002, &mut buf).unwrap(), 3);
    assert_eq!(buf, vec![9, 8, 7]);
}
