use touchhle::dyld::{Dyld, DyldError, FunctionExport, HostFunction, Import};
use touchhle::mem::{Mem, MemError, MutPtr, Ptr};

fn export(name: &[u8], number: u32) -> FunctionExport {
    FunctionExport { name: name.to_vec(), arity: 1, function: HostFunction { number } }
}

fn import(name: &[u8], slot: MutPtr<u32>) -> Import {
    Import { name: name.to_vec(), slot }
}

fn registry(mem: &mut Mem) -> Dyld {
    let mut dyld = Dyld::new();
    dyld.register_exports(mem, vec![export(b"_printf", 10), export(b"_sleep", 11)]).unwrap();
    dyld.register_exports(mem, vec![export(b"_getpid", 12)]).unwrap();
    dyld
}

fn slots(mem: &mut Mem, count: u32) -> Vec<MutPtr<u32>> {
    let base = mem.allocate(4 * count).unwrap();
    (0..count).map(|i| Ptr::from_bits(base.to_bits() + 4 * i)).collect()
}

#[test]
fn names_resolve_to_their_exports() {
    let mut mem = Mem::new();
    let dyld = registry(&mut mem);
    assert_eq!(dyld.lookup(b"_printf"), Some(0));
    assert_eq!(dyld.lookup(b"_getpid"), Some(2));
    assert_eq!(dyld.lookup(b"_exit"), None);
    assert_eq!(dyld.lookup_function(b"_sleep"), Some(HostFunction { number: 11 }));
    assert_eq!(dyld.lookup_function(b"_slee"), None);
    assert_eq!(dyld.function_of_call(2), Some(HostFunction { number: 12 }));
    assert_eq!(dyld.function_of_call(3), None);
}

#[test]
fn each_export_gets_a_trampoline_that_carries_its_number() {
    let mut mem = Mem::new();
    let dyld = registry(&mut mem);
    let first = dyld.trampoline_of(b"_printf").unwrap().addr_with_thumb_bit();
    let second = dyld.trampoline_of(b"_sleep").unwrap().addr_with_thumb_bit();
    let third = dyld.trampoline_of(b"_getpid").unwrap().addr_with_thumb_bit();
    assert_eq!(first, 0x1000);
    assert_eq!(second, first + 8);
    assert_eq!(third, 0x1020);
    assert!(dyld.trampoline_of(b"_exit").is_none());
    for (addr, number) in [(first, 0u32), (second, 1), (third, 2)] {
        let code: MutPtr<u32> = Ptr::from_bits(addr);
        assert_eq!(mem.read(code), Ok(0xef00_0000 + number));
        assert_eq!(mem.read(code.offset(1).unwrap()), Ok(0xe12f_ff1eu32));
    }
}

#[test]
fn duplicate_export_is_reported_and_nothing_is_added() {
    let mut mem = Mem::new();
    let mut dyld = registry(&mut mem);
    let next = mem.next_address();
    assert_eq!(
        dyld.register_exports(&mut mem, vec![export(b"_new", 1), export(b"_sleep", 2)]),
        Err(DyldError::DuplicateExport(1))
    );
    assert_eq!(
        dyld.register_exports(&mut mem, vec![export(b"_a", 1), export(b"_b", 2), export(b"_a", 3)]),
        Err(DyldError::DuplicateExport(2))
    );
    assert_eq!(dyld.lookup(b"_new"), None);
    assert_eq!(dyld.lookup(b"_a"), None);
    assert_eq!(mem.next_address(), next);
    assert_eq!(dyld.register_exports(&mut mem, Vec::new()), Ok(()));
    assert_eq!(mem.next_address(), next);
    assert_eq!(dyld.register_exports(&mut mem, vec![export(b"_new", 1)]), Ok(()));
    assert_eq!(dyld.lookup(b"_new"), Some(3));
}

#[test]
fn linking_writes_trampolines_and_reports_what_is_unresolved() {
    let mut mem = Mem::new();
    let dyld = registry(&mut mem);
    let s = slots(&mut mem, 4);
    let imports = vec![
        import(b"_getpid", s[0]),
        import(b"_missing", s[1]),
        import(b"_printf", s[2]),
        import(b"_also_missing", s[3]),
    ];
    assert_eq!(dyld.link(&mut mem, &imports), Ok(vec![1, 3]));
    assert_eq!(mem.read(s[0]), Ok(dyld.trampoline_of(b"_getpid").unwrap().addr_with_thumb_bit()));
    assert_eq!(mem.read(s[1]), Ok(0));
    assert_eq!(mem.read(s[2]), Ok(dyld.trampoline_of(b"_printf").unwrap().addr_with_thumb_bit()));
    assert_eq!(mem.read(s[3]), Ok(0));
}

#[test]
fn linking_twice_binds_the_same_targets() {
    let mut mem = Mem::new();
    let dyld = registry(&mut mem);
    let s = slots(&mut mem, 3);
    let imports =
        vec![import(b"_sleep", s[0]), import(b"_printf", s[1]), import(b"_getpid", s[0])];
    assert_eq!(dyld.link(&mut mem, &imports), Ok(Vec::new()));
    let once: Vec<u32> = s.iter().map(|p| mem.read(*p).unwrap()).collect();
    assert_eq!(dyld.link(&mut mem, &imports), Ok(Vec::new()));
    let twice: Vec<u32> = s.iter().map(|p| mem.read(*p).unwrap()).collect();
    assert_eq!(once, twice);
    assert_eq!(once[0], dyld.trampoline_of(b"_getpid").unwrap().addr_with_thumb_bit());
    assert_eq!(once[2], 0);
}

#[test]
fn closed_export_set_leaves_nothing_unresolved() {
    let mut mem = Mem::new();
    let dyld = registry(&mut mem);
    let s = slots(&mut mem, 3);
    let imports =
        vec![import(b"_printf", s[0]), import(b"_sleep", s[1]), import(b"_getpid", s[2])];
    assert_eq!(dyld.link(&mut mem, &imports), Ok(Vec::new()));
}

#[test]
fn nothing_is_written_when_a_slot_cannot_be() {
    let mut mem = Mem::new();
    let dyld = registry(&mut mem);
    let s = slots(&mut mem, 1);
    let imports = vec![
        import(b"_sleep", s[0]),
        import(b"_missing", Ptr::null()),
        import(b"_printf", Ptr::from_bits(0x10)),
    ];
    assert_eq!(dyld.link(&mut mem, &imports), Err(MemError::OutOfBounds));
    assert_eq!(mem.read(s[0]), Ok(0));
}
