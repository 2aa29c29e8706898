use vnodes::allocator::{
    aligned_cells, ensure_index, AllocIndex, Allocator, RawAllocator, ALIGN, MAX_BYTES_PER_ALLOC,
    MAX_CELLS_PER_ALLOC, NUM_CELLS,
};

#[test]
fn test_push() {
    let mut alloc = Allocator::new();
    let mut index: AllocIndex<(i32, i32, i32)> = alloc.push((5, 1, 3));

    assert_eq!(alloc.get(&index), &(5, 1, 3));

    alloc.get_mut(&mut index).1 = 13;

    assert_eq!(alloc.get(&index), &(5, 13, 3));

    alloc.pop(index);
}

#[test]
fn test_wrong_pop() {
    let mut alloc = Allocator::new();
    let mut index: AllocIndex<(i32, i32, i32)> = alloc.push((5, 1, 3));

    assert_eq!(alloc.get(&index), &(5, 1, 3));

    alloc.get_mut(&mut index).1 = 13;

    assert_eq!(alloc.get(&index), &(5, 13, 3));

    // This should still work
    alloc.pop_unsized(index);
}

#[test]
fn test_coerce_unsized() {
    let mut alloc = Allocator::new();
    let index: AllocIndex<[i32; 10]> = alloc.push([1, 2, 3, 4, 5, 6, 7, 8, 9, 10]);

    alloc.pop_unsized(index);
}

#[test]
fn test_boxed_unsized() {
    let mut alloc = Allocator::new();
    let boxed = Box::new([1, 2, 3, 4, 5, 6, 7, 8, 9, 10]) as Box<[i32]>;
    let index: AllocIndex<[i32]> = alloc.push_boxed(boxed);

    assert_eq!(alloc.get(&index).iter().sum::<i32>(), 55);

    alloc.pop_unsized(index);
}

#[test]
fn typed_values_have_blocks_of_their_size() {
    let mut alloc: Allocator<[u8; 40]> = Allocator::new();
    assert!(alloc.fits(40));
    let first = alloc.push([1; 40]);
    let second = alloc.push([2; 40]);
    let third = alloc.push([3; 40]);
    assert_eq!((first.index(), first.size()), (0, 40));
    assert_eq!((second.index(), second.size()), (3, 40));
    assert_eq!((third.index(), third.size()), (6, 40));
    // A value taken out of the middle leaves the others where they are.
    assert_eq!(alloc.pop(second), [2; 40]);
    assert_eq!(alloc.get(&first), &[1; 40]);
    assert_eq!(alloc.get(&third), &[3; 40]);
    assert_eq!(*alloc.take(third), [3; 40]);
    // The cells of both are free again: the next block follows the first.
    let fourth = alloc.push([4; 40]);
    assert_eq!(fourth.index(), 3);
    assert_eq!(alloc.pop(fourth), [4; 40]);
    assert_eq!(alloc.pop(first), [1; 40]);
    assert_eq!(alloc.push([5; 40]).index(), 0);
}

#[test]
fn cells_round_up() {
    assert_eq!(aligned_cells(0), 0);
    assert_eq!(aligned_cells(1), 1);
    assert_eq!(aligned_cells(16), 1);
    assert_eq!(aligned_cells(17), 2);
    assert_eq!(aligned_cells(32), 2);
    assert_eq!(aligned_cells(MAX_BYTES_PER_ALLOC), MAX_CELLS_PER_ALLOC);
    assert_eq!(ALIGN, 16);
    assert_eq!(NUM_CELLS, (1 << 14) << 4);
}

#[test]
fn ensure_index_grows_with_zeros() {
    let mut v = vec![7, 8];
    ensure_index(&mut v, 1);
    assert_eq!(v, vec![7, 8]);
    ensure_index(&mut v, 4);
    assert_eq!(v, vec![7, 8, 0, 0, 0]);
    let mut empty: Vec<usize> = vec![];
    ensure_index(&mut empty, 0);
    assert_eq!(empty, vec![0]);
}

#[test]
fn blocks_follow_one_another() {
    let mut a = RawAllocator::new();
    assert_eq!(a.position(), 0);
    assert_eq!(a.allocate(32), 0);
    assert_eq!(a.allocate(32), 2);
    assert_eq!(a.allocate(1), 4);
    assert_eq!(a.allocate(4096), 5);
    assert_eq!(a.position(), 261);
    assert_eq!(a.sizes()[2], 2);
    assert_eq!(a.sizes()[4], 2);
    assert_eq!(a.sizes()[5], 1);
    assert_eq!(a.sizes()[261], 256);
    assert_eq!(a.sizes()[3], 0);
}

#[test]
fn four_blocks_given_back_out_of_order() {
    let mut a = RawAllocator::new();
    let p_a = a.allocate(32);
    let p_b = a.allocate(32);
    let p_c = a.allocate(32);
    let p_d = a.allocate(32);
    assert_eq!((p_a, p_b, p_c, p_d), (0, 2, 4, 6));
    assert_eq!(a.sizes(), &[0, 0, 2, 0, 2, 0, 2, 0, 2]);
    // A block in the middle is joined to the block behind it.
    a.deallocate(p_b, 32);
    assert_eq!(a.position(), 8);
    assert_eq!(a.sizes(), &[0, 0, 2, 0, 0, 0, 4, 0, 2]);
    // The last block frees its cells.
    a.deallocate(p_d, 32);
    assert_eq!(a.position(), 6);
    assert_eq!(a.sizes(), &[0, 0, 2, 0, 0, 0, 4]);
    let p_e = a.allocate(32);
    assert_eq!(p_e, 6);
    assert_eq!(a.sizes(), &[0, 0, 2, 0, 0, 0, 4, 0, 2]);
    a.deallocate(p_c, 32);
    assert_eq!(a.position(), 8);
    assert_eq!(a.sizes(), &[0, 0, 2, 0, 0, 0, 0, 0, 6]);
    a.deallocate(p_e, 32);
    assert_eq!(a.position(), 2);
    a.deallocate(p_a, 32);
    assert_eq!(a.position(), 0);
    assert_eq!(a.sizes(), &[0]);
}

#[test]
fn stale_sizes_do_not_mislead() {
    let mut a = RawAllocator::new();
    let first = a.allocate(32);
    a.deallocate(first, 32);
    let one = a.allocate(16);
    let three = a.allocate(48);
    assert_eq!((one, three), (0, 1));
    assert_eq!(a.sizes(), &[0, 1, 0, 0, 3]);
    a.deallocate(one, 16);
    assert_eq!(a.sizes(), &[0, 0, 0, 0, 4]);
    a.deallocate(three, 48);
    assert_eq!(a.position(), 0);
}

#[test]
fn fits_tells_when_the_buffer_is_full() {
    let mut a = RawAllocator::new();
    assert!(!a.fits(0));
    assert!(!a.fits(MAX_BYTES_PER_ALLOC + 1));
    assert!(a.fits(MAX_BYTES_PER_ALLOC));
    let mut blocks = 0;
    while a.fits(MAX_BYTES_PER_ALLOC) {
        a.allocate(MAX_BYTES_PER_ALLOC);
        blocks += 1;
    }
    assert_eq!(blocks, NUM_CELLS / MAX_CELLS_PER_ALLOC - 1);
    assert_eq!(a.position(), NUM_CELLS - MAX_CELLS_PER_ALLOC);
    assert!(a.fits(16 * (MAX_CELLS_PER_ALLOC - 1)));
    assert!(!a.fits(16 * MAX_CELLS_PER_ALLOC));
}

#[test]
fn bytes_are_written_and_read() {
    let mut a = RawAllocator::new();
    let first = a.allocate(20);
    let second = a.allocate(4);
    a.write(first, &[1, 2, 3, 4, 5, 6, 7, 8, 9, 10, 11, 12, 13, 14, 15, 16, 17, 18, 19, 20]);
    a.write(second, &[9, 9, 9, 9]);
    assert_eq!(a.read(first, 3), &[1, 2, 3]);
    assert_eq!(a.read(first + 1, 4), &[17, 18, 19, 20]);
    assert_eq!(a.read(second, 5), &[9, 9, 9, 9, 0]);
    assert_eq!(a.read(NUM_CELLS - 1, 16), &[0; 16]);
}

#[test]
fn references_to_slices_are_fat() {
    assert!(!vnodes::util::is_fat::<u64>());
    assert!(!vnodes::util::is_fat::<[u8; 4]>());
    assert!(vnodes::util::is_fat::<[u8]>());
    assert!(vnodes::util::is_fat::<str>());
}
