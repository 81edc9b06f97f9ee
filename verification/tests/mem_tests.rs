use touchhle::mem::{ConstPtr, GuestUSize, Mem, MemError, MutPtr, MutVoidPtr, Ptr};

#[test]
fn allocation_is_accessible_up_to_its_size_and_not_beyond() {
    for size in [1u32, 2, 15, 16, 17, 100] {
        let mut mem = Mem::new();
        let base = mem.allocate(size).unwrap();
        for offset in 0..size {
            let p: MutPtr<u8> = Ptr::from_bits(base.to_bits() + offset);
            assert_eq!(mem.write(p, offset as u8), Ok(()));
            assert_eq!(mem.read(p), Ok(offset as u8));
        }
        let end: MutPtr<u8> = Ptr::from_bits(base.to_bits() + size);
        assert_eq!(mem.read(end), Err(MemError::OutOfBounds));
        assert_eq!(mem.write(end, 1u8), Err(MemError::OutOfBounds));
    }
}

#[test]
fn byte_after_an_allocation_stays_out_of_bounds_when_more_is_allocated() {
    let mut mem = Mem::new();
    let first = mem.allocate(16).unwrap();
    let second = mem.allocate(16).unwrap();
    let end: MutPtr<u8> = Ptr::from_bits(first.to_bits() + 16);
    assert_eq!(mem.read(end), Err(MemError::OutOfBounds));
    assert!(second.to_bits() > first.to_bits() + 16);
}

#[test]
fn first_allocation_lies_just_above_the_null_page() {
    let mut mem = Mem::new();
    let p = mem.allocate(4).unwrap();
    assert_eq!(p.to_bits(), 0x1000);
    assert_eq!(p.to_bits() % 16, 0);
    let q = mem.allocate(4).unwrap();
    assert_eq!(q.to_bits(), 0x1010);
}

#[test]
fn allocation_of_nothing_is_refused() {
    let mut mem = Mem::new();
    assert_eq!(mem.allocate(0).map(|p| p.to_bits()), Err(MemError::ZeroSize));
}

#[test]
fn allocation_beyond_the_address_space_is_refused() {
    let mut mem = Mem::new();
    assert_eq!(mem.allocate(0xffff_ffff).map(|p| p.to_bits()), Err(MemError::OutOfMemory));
    assert_eq!(mem.allocate(8).map(|p| p.to_bits()), Ok(0x1000));
}

#[test]
fn null_pointer_is_out_of_bounds() {
    let mem = Mem::new();
    let p: ConstPtr<u32> = Ptr::null();
    assert!(p.is_null());
    assert_eq!(mem.read(p), Err(MemError::OutOfBounds));
}

#[test]
fn value_spanning_the_end_of_an_allocation_is_refused() {
    let mut mem = Mem::new();
    let base = mem.allocate(6).unwrap();
    let inside: MutPtr<u32> = Ptr::from_bits(base.to_bits() + 2);
    assert_eq!(mem.write(inside, 0xdead_beef), Ok(()));
    let across: MutPtr<u32> = Ptr::from_bits(base.to_bits() + 3);
    assert_eq!(mem.write(across, 1), Err(MemError::OutOfBounds));
    assert_eq!(mem.read(inside), Ok(0xdead_beefu32));
}

#[test]
fn words_are_little_endian() {
    let mut mem = Mem::new();
    let base: MutPtr<u32> = mem.allocate(8).unwrap().cast();
    mem.write(base, 0x1122_3344u32).unwrap();
    let bytes = mem.bytes_at(base.cast::<u8>(), 4).unwrap();
    assert_eq!(bytes, &[0x44, 0x33, 0x22, 0x11]);
    let wide: MutPtr<u64> = base.cast();
    mem.write(wide, 0x0102_0304_0506_0708u64).unwrap();
    assert_eq!(mem.read(wide), Ok(0x0102_0304_0506_0708u64));
    assert_eq!(mem.read(base), Ok(0x0506_0708u32));
    let half: MutPtr<u16> = base.cast();
    assert_eq!(mem.read(half), Ok(0x0708u16));
    let signed: MutPtr<i32> = base.cast();
    mem.write(signed, -2).unwrap();
    assert_eq!(mem.read(signed), Ok(-2));
    assert_eq!(mem.read(base), Ok(0xffff_fffeu32));
}

#[test]
fn pointers_are_stored_as_their_address() {
    let mut mem = Mem::new();
    let slot: MutPtr<MutVoidPtr> = mem.allocate(4).unwrap().cast();
    let target: MutVoidPtr = Ptr::from_bits(0x1234_5678);
    mem.write(slot, target).unwrap();
    assert_eq!(mem.read(slot).unwrap().to_bits(), 0x1234_5678);
    assert_eq!(mem.read(slot.cast::<u32>()), Ok(0x1234_5678u32));
}

#[test]
fn free_then_access_is_use_after_free() {
    let mut mem = Mem::new();
    let base = mem.allocate(8).unwrap();
    let p: MutPtr<u8> = base.cast();
    mem.write(p, 7u8).unwrap();
    assert_eq!(mem.free(base), Ok(()));
    assert_eq!(mem.read(p), Err(MemError::UseAfterFree));
    assert_eq!(mem.write(p, 1u8), Err(MemError::UseAfterFree));
    assert_eq!(mem.check_access(base.to_bits(), 8), Err(MemError::UseAfterFree));
}

#[test]
fn free_twice_is_double_free() {
    let mut mem = Mem::new();
    let base = mem.allocate(8).unwrap();
    assert_eq!(mem.free(base), Ok(()));
    assert_eq!(mem.free(base), Err(MemError::DoubleFree));
}

#[test]
fn free_of_what_was_never_allocated_is_refused() {
    let mut mem = Mem::new();
    let base = mem.allocate(8).unwrap();
    let inside: MutVoidPtr = Ptr::from_bits(base.to_bits() + 1);
    assert_eq!(mem.free(inside), Err(MemError::InvalidFree));
    assert_eq!(mem.free(Ptr::null()), Err(MemError::InvalidFree));
    assert_eq!(mem.free(base), Ok(()));
}

#[test]
fn freed_addresses_are_not_handed_out_again() {
    let mut mem = Mem::new();
    let first = mem.allocate(8).unwrap();
    mem.free(first).unwrap();
    let second = mem.allocate(8).unwrap();
    assert!(second.to_bits() != first.to_bits());
    let stale: MutPtr<u8> = first.cast();
    assert_eq!(mem.read(stale), Err(MemError::UseAfterFree));
}

#[test]
fn new_memory_is_zeroed() {
    let mut mem = Mem::new();
    let base: MutPtr<u8> = mem.allocate(5).unwrap().cast();
    assert_eq!(mem.bytes_at(base, 5).unwrap(), &[0, 0, 0, 0, 0]);
}

#[test]
fn bytes_are_written_and_read_back() {
    let mut mem = Mem::new();
    let base: MutPtr<u8> = mem.allocate(6).unwrap().cast();
    assert_eq!(mem.write_bytes(base, b"hello"), Ok(()));
    assert_eq!(mem.bytes_at(base, 6).unwrap(), b"hello\0");
    assert_eq!(mem.write_bytes(base, b"too long"), Err(MemError::OutOfBounds));
    assert_eq!(mem.bytes_at(base, 6).unwrap(), b"hello\0");
    assert_eq!(mem.bytes_at(base, 7).map(|b| b.len()), Err(MemError::OutOfBounds));
}

#[test]
fn string_ends_at_its_terminator() {
    let mut mem = Mem::new();
    let base: MutPtr<u8> = mem.allocate(8).unwrap().cast();
    mem.write_bytes(base, b"ok\0more").unwrap();
    assert_eq!(mem.cstr_at(base).unwrap(), b"ok");
    let later: MutPtr<u8> = Ptr::from_bits(base.to_bits() + 3);
    assert_eq!(mem.cstr_at(later).unwrap(), b"more");
    let at_nul: MutPtr<u8> = Ptr::from_bits(base.to_bits() + 2);
    assert_eq!(mem.cstr_at(at_nul).unwrap(), b"");
}

#[test]
fn string_without_terminator_is_out_of_bounds() {
    let mut mem = Mem::new();
    let base: MutPtr<u8> = mem.allocate(4).unwrap().cast();
    mem.write_bytes(base, b"abcd").unwrap();
    assert_eq!(mem.cstr_at(base).map(|s| s.len()), Err(MemError::OutOfBounds));
    let null: ConstPtr<u8> = Ptr::null();
    assert_eq!(mem.cstr_at(null).map(|s| s.len()), Err(MemError::OutOfBounds));
    mem.free(base.cast()).unwrap();
    assert_eq!(mem.cstr_at(base).map(|s| s.len()), Err(MemError::UseAfterFree));
}

#[test]
fn alloc_and_write_stores_the_value() {
    let mut mem = Mem::new();
    let p = mem.alloc_and_write(0xcafe_f00du32).unwrap();
    assert_eq!(p.to_bits(), 0x1000);
    assert_eq!(mem.read(p), Ok(0xcafe_f00du32));
    let end: MutPtr<u8> = Ptr::from_bits(p.to_bits() + 4);
    assert_eq!(mem.read(end), Err(MemError::OutOfBounds));
}

#[test]
fn pointer_offsets_count_elements() {
    let p: ConstPtr<u32> = Ptr::from_bits(0x2000);
    assert_eq!(p.offset(3).map(|q| q.to_bits()), Some(0x200c));
    let b: ConstPtr<u8> = Ptr::from_bits(0x2000);
    assert_eq!(b.offset(3).map(|q| q.to_bits()), Some(0x2003));
    let far: ConstPtr<u32> = Ptr::from_bits(0xffff_fffc);
    assert_eq!(far.offset(1).map(|q| q.to_bits()), None);
    assert_eq!(far.offset(0).map(|q| q.to_bits()), Some(0xffff_fffc));
    let size: GuestUSize = 4;
    assert_eq!(size, 4);
}

#[test]
fn next_address_is_where_the_next_allocation_goes() {
    let mut mem = Mem::new();
    let next = mem.next_address();
    assert_eq!(mem.allocate(3).unwrap().to_bits(), next);
}
