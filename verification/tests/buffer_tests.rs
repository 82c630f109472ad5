use scratch_buffer::ScratchBuffer;

#[test]
fn test_1() {
    let buf = ScratchBuffer::new();

    let mut u32buf = buf.clear_and_use_as::<u32>();
    u32buf.push(123);
    u32buf.push(456);
    assert_eq!(vec![123u32, 456], u32buf.as_slice());

    let mut u16buf = u32buf.clear_and_use_as::<u16>();
    u16buf.push(345);
    u16buf.push(678);
    assert_eq!(vec![345u16, 678], u16buf.as_slice());
}

#[test]
fn new_buffer_is_empty_with_no_allocation() {
    let buf = ScratchBuffer::new();
    assert_eq!(0, buf.len());
    assert!(buf.is_empty());
    assert_eq!(0, buf.capacity());
}

#[test]
fn push_keeps_call_order() {
    let buf = ScratchBuffer::new();
    let mut b = buf.clear_and_use_as::<u8>();
    let values = [7u8, 3, 9, 3, 0, 255, 1];
    for (n, v) in values.iter().enumerate() {
        let i = b.push(*v);
        assert_eq!(n, i);
    }
    assert_eq!(values.to_vec(), b.as_slice());
    assert_eq!(values.len(), b.len());
    assert!(!b.is_empty());
}

#[test]
fn push_and_get_round_trip_boundary_values() {
    let buf = ScratchBuffer::new();
    let mut b = buf.clear_and_use_as::<u64>();
    b.push(0);
    b.push(u64::MAX);
    b.push(0x0123_4567_89ab_cdef);
    assert_eq!(0, b.get(0));
    assert_eq!(u64::MAX, b.get(1));
    assert_eq!(0x0123_4567_89ab_cdef, b.get(2));
}

#[test]
fn set_at_overwrites_one_element() {
    let buf = ScratchBuffer::new();
    let mut b = buf.clear_and_use_as::<u16>();
    b.push(10);
    b.push(20);
    b.push(30);
    b.set_at(1, 999);
    assert_eq!(vec![10u16, 999, 30], b.as_slice());
}

#[test]
fn insert_splices_at_every_valid_index() {
    let buf = ScratchBuffer::new();
    let mut b = buf.clear_and_use_as::<u32>();
    b.push(1);
    b.push(2);
    b.push(3);

    b.insert(0, 100);
    assert_eq!(vec![100u32, 1, 2, 3], b.as_slice());

    b.insert(2, 200);
    assert_eq!(vec![100u32, 1, 200, 2, 3], b.as_slice());

    b.insert(5, 300);
    assert_eq!(vec![100u32, 1, 200, 2, 3, 300], b.as_slice());
    assert_eq!(6, b.len());
}

#[test]
fn insert_into_empty_buffer() {
    let buf = ScratchBuffer::new();
    let mut b = buf.clear_and_use_as::<u64>();
    b.insert(0, 42);
    assert_eq!(vec![42u64], b.as_slice());
}

#[test]
fn extend_appends_in_order() {
    let buf = ScratchBuffer::new();
    let mut b = buf.clear_and_use_as::<u16>();
    b.push(1);
    b.extend(&vec![2u16, 3, 4]);
    assert_eq!(vec![1u16, 2, 3, 4], b.as_slice());

    b.extend(&Vec::new());
    assert_eq!(vec![1u16, 2, 3, 4], b.as_slice());
}

#[test]
fn reserve_grows_to_smallest_power_of_two() {
    let buf = ScratchBuffer::new();
    let mut b = buf.clear_and_use_as::<u32>();
    b.reserve(3);
    // 12 bytes needed: the smallest power of two at least 12 is 16.
    assert_eq!(16, b.capacity());
    assert_eq!(0, b.len());

    // Already large enough: no change.
    b.reserve(4);
    assert_eq!(16, b.capacity());
}

#[test]
fn growth_is_smallest_power_of_two_and_preserves_elements() {
    let buf = ScratchBuffer::new();
    let mut b = buf.clear_and_use_as::<u32>();
    for n in 0..100u32 {
        b.push(n * 11);
        let used = (n as usize + 1) * 4;
        let expected = used.next_power_of_two();
        assert_eq!(expected, b.capacity());
        // No prior element's value is altered by a growth event.
        for m in 0..=n {
            assert_eq!(m * 11, b.get(m as usize));
        }
    }
}

#[test]
fn reinterpretation_discards_content_but_keeps_allocation() {
    let buf = ScratchBuffer::new();
    let mut b = buf.clear_and_use_as::<u64>();
    for n in 0..8u64 {
        b.push(n);
    }
    let cap = b.capacity();
    assert_eq!(64, cap);

    let b2 = b.clear_and_use_as::<u16>();
    assert_eq!(0, b2.len());
    assert!(b2.is_empty());
    assert_eq!(cap, b2.capacity());
    assert_eq!(Vec::<u16>::new(), b2.as_slice());
}

#[test]
fn buffers_of_varying_sizes_construct_and_drop() {
    for pushes in [0usize, 1, 2, 17, 1000] {
        let buf = ScratchBuffer::new();
        let mut b = buf.clear_and_use_as::<u32>();
        for n in 0..pushes {
            b.push(n as u32);
        }
        assert_eq!(pushes, b.len());
    }
    // A buffer that never allocated drops as a no-op.
    let empty = ScratchBuffer::new();
    assert_eq!(0, empty.capacity());
}
