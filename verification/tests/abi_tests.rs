use touchhle::abi::{
    read_next_arg, write_return, DotDotDot, DoubleBits, FloatBits, GuestFunction, VaList,
};
use touchhle::cpu::Cpu;
use touchhle::environment::Environment;
use touchhle::mem::{ConstPtr, ConstVoidPtr, MemError, MutPtr, Ptr};

fn stack_with_words(env: &mut Environment, words: &[u32]) -> ConstVoidPtr {
    let base = env.mem.allocate((words.len() as u32) * 4).unwrap();
    for (i, &w) in words.iter().enumerate() {
        let p: MutPtr<u32> = Ptr::from_bits(base.to_bits() + 4 * i as u32);
        env.mem.write(p, w).unwrap();
    }
    base.cast_const()
}

#[test]
fn variadic_cursor_yields_arguments_in_call_order() {
    let mut env = Environment::new();
    let text: MutPtr<u8> = env.mem.allocate(3).unwrap().cast();
    env.mem.write_bytes(text, b"ok\0").unwrap();
    let bits = 1.5f64.to_bits();
    // One fixed argument in r0, then: int in r1, string in r2, and the
    // double split between r3 and the first stack slot.
    env.cpu.set_reg(0, 0xaaaa_aaaa);
    env.cpu.set_reg(1, 3);
    env.cpu.set_reg(2, text.to_bits());
    env.cpu.set_reg(3, bits as u32);
    let stack = stack_with_words(&mut env, &[(bits >> 32) as u32, 0x5555_5555]);
    let mut args = DotDotDot::new(1, stack).start();
    assert_eq!(args.next::<i32>(&env), Ok(3));
    let s: ConstPtr<u8> = args.next(&env).unwrap();
    assert_eq!(env.mem.cstr_at(s).unwrap(), b"ok");
    let d: DoubleBits = args.next(&env).unwrap();
    assert_eq!(f64::from_bits(d.bits), 1.5);
    assert_eq!(args.next::<u32>(&env), Ok(0x5555_5555));
    assert_eq!(args.reg_offset, 6);
}

#[test]
fn cursor_over_memory_reads_consecutive_words() {
    let mut env = Environment::new();
    let list = stack_with_words(&mut env, &[7, 0xffff_ffff, 0x0001_0002]);
    let mut args = VaList::from_pointer(list);
    assert_eq!(args.next::<u32>(&env), Ok(7));
    assert_eq!(args.next::<i32>(&env), Ok(-1));
    assert_eq!(args.next::<u16>(&env), Ok(2));
    assert_eq!(args.next::<u32>(&env), Err(MemError::OutOfBounds));
    assert_eq!(args.reg_offset, 7);
}

#[test]
fn narrow_integers_take_a_whole_word() {
    let mut env = Environment::new();
    let list = stack_with_words(&mut env, &[0x1234_5678, 0x1234_5678, 0, 2]);
    let mut args = VaList::from_pointer(list);
    assert_eq!(args.next::<u8>(&env), Ok(0x78));
    assert_eq!(args.next::<u16>(&env), Ok(0x5678));
    assert_eq!(args.next::<bool>(&env), Ok(false));
    assert_eq!(args.next::<bool>(&env), Ok(true));
}

#[test]
fn wide_values_take_two_words_low_word_first() {
    let mut env = Environment::new();
    let list = stack_with_words(&mut env, &[0x89ab_cdef, 0x0123_4567, 0x3fc0_0000]);
    let mut args = VaList::from_pointer(list);
    assert_eq!(args.next::<u64>(&env), Ok(0x0123_4567_89ab_cdef));
    let f: FloatBits = args.next(&env).unwrap();
    assert_eq!(f32::from_bits(f.bits), 1.5);
}

#[test]
fn failed_fetch_leaves_the_cursor_in_place() {
    let env = Environment::new();
    let mut args = DotDotDot::new(3, Ptr::null()).start();
    assert_eq!(args.next::<u64>(&env), Err(MemError::OutOfBounds));
    assert_eq!(args.reg_offset, 3);
    assert_eq!(args.next::<u32>(&env), Ok(0));
    assert_eq!(args.reg_offset, 4);
}

#[test]
fn fixed_arguments_are_read_from_registers_then_stack() {
    let mut env = Environment::new();
    for i in 0..4 {
        env.cpu.set_reg(i, 10 + i as u32);
    }
    let stack = stack_with_words(&mut env, &[14, 15]);
    let mut offset = 0usize;
    let regs = *env.cpu.regs();
    for expected in 10..16u32 {
        let got: u32 = read_next_arg(&mut offset, &regs, stack, &env.mem).unwrap();
        assert_eq!(got, expected);
    }
    assert_eq!(offset, 6);
    let more: Result<u32, MemError> = read_next_arg(&mut offset, &regs, stack, &env.mem);
    assert_eq!(more, Err(MemError::OutOfBounds));
    assert_eq!(offset, 6);
}

#[test]
fn return_values_go_to_the_first_registers() {
    let mut cpu = Cpu::new();
    for i in 0..16 {
        cpu.set_reg(i, 100 + i as u32);
    }
    write_return(&mut cpu, -1i32);
    assert_eq!(cpu.regs()[0], 0xffff_ffff);
    assert_eq!(cpu.regs()[1], 101);
    write_return(&mut cpu, 0x1111_2222_3333_4444u64);
    assert_eq!(cpu.regs()[0], 0x3333_4444);
    assert_eq!(cpu.regs()[1], 0x1111_2222);
    assert_eq!(cpu.regs()[2], 102);
    assert_eq!(cpu.regs()[15], 115);
}

#[test]
fn guest_function_keeps_its_thumb_bit() {
    let f = GuestFunction::from_addr_with_thumb_bit(0x4001);
    assert!(f.is_thumb());
    assert_eq!(f.addr_with_thumb_bit(), 0x4001);
    assert_eq!(f.addr_without_thumb_bit(), 0x4000);
    let g = GuestFunction::from_addr_with_thumb_bit(0x4000);
    assert!(!g.is_thumb());
    assert_eq!(g.addr_without_thumb_bit(), 0x4000);
    assert_eq!(Cpu::SP, 13);
}
