use scratch_buffer::ScratchBuffer;

#[test]
fn search_finds_existing_key_without_inserting() {
    let buf = ScratchBuffer::new();
    let mut b = buf.clear_and_use_as::<u64>();
    b.push(10);
    b.push(20);
    b.push(30);
    let i = b.binary_search_insert_by_key_with(&20u64, |t: &u64| *t, || 20u64);
    assert_eq!(1, i);
    assert_eq!(3, b.len());
    assert_eq!(vec![10u64, 20, 30], b.as_slice());
}

#[test]
fn search_inserts_missing_key_at_sorted_position() {
    let buf = ScratchBuffer::new();
    let mut b = buf.clear_and_use_as::<u64>();
    b.push(10);
    b.push(30);
    let i = b.binary_search_insert_by_key_with(&20u64, |t: &u64| *t, || 20u64);
    assert_eq!(1, i);
    assert_eq!(vec![10u64, 20, 30], b.as_slice());
}

#[test]
fn search_twice_with_same_key_returns_same_element() {
    let buf = ScratchBuffer::new();
    let mut b = buf.clear_and_use_as::<u64>();
    // Elements are key-value pairs packed into one word: the key in the
    // high half, the value in the low half.
    let key_of = |t: &u64| *t >> 32;
    let make = || 7u64 << 32;

    b.push(1u64 << 32);
    b.push(9u64 << 32);

    let i = b.binary_search_insert_by_key_with(&7u64, key_of, make);
    assert_eq!(1, i);
    assert_eq!(3, b.len());

    // Mutate the element the first call created, through its index.
    b.set_at(i, (7u64 << 32) | 555);

    // The second call finds that same element: no duplicate is created and
    // the mutation is visible through the returned index.
    let j = b.binary_search_insert_by_key_with(&7u64, key_of, make);
    assert_eq!(i, j);
    assert_eq!(3, b.len());
    assert_eq!((7u64 << 32) | 555, b.get(j));
}

#[test]
fn search_insert_in_arbitrary_order_yields_sorted_contents() {
    let buf = ScratchBuffer::new();
    let mut b = buf.clear_and_use_as::<u64>();
    for key in [5u64, 1, 9, 3, 7, 2, 8, 1, 9, 4, 6, 0] {
        b.binary_search_insert_by_key_with(&key, |t: &u64| *t, move || key);
    }
    let out = b.as_slice();
    assert_eq!(vec![0u64, 1, 2, 3, 4, 5, 6, 7, 8, 9], out);
}

#[test]
fn search_with_default_constructed_insert() {
    let buf = ScratchBuffer::new();
    let mut b = buf.clear_and_use_as::<u64>();
    b.push(1);
    b.push(3);

    // Present key: found, nothing inserted.
    let i = b.binary_search_insert_by_key(&3u64, |t: &u64| *t);
    assert_eq!(1, i);
    assert_eq!(2, b.len());

    // Absent key below all others: the default value (0) is inserted first.
    let j = b.binary_search_insert_by_key(&0u64, |t: &u64| *t);
    assert_eq!(0, j);
    assert_eq!(vec![0u64, 1, 3], b.as_slice());
}

#[test]
fn search_on_empty_buffer_inserts_at_front() {
    let buf = ScratchBuffer::new();
    let mut b = buf.clear_and_use_as::<u32>();
    let i = b.binary_search_insert_by_key_with(&5u32, |t: &u32| *t, || 5u32);
    assert_eq!(0, i);
    assert_eq!(vec![5u32], b.as_slice());
}
