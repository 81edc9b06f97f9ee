//! Marshalling between host values and the guest calling convention.
//!
//! Arguments are passed in 32-bit words: the first four words travel in
//! registers `r0` to `r3`, the rest on the stack, lowest address first. A value
//! may straddle the two. Integers narrower than a word occupy a whole word;
//! 64-bit values occupy two, least significant first.

use crate::cpu::Cpu;
use crate::environment::Environment;
use crate::mem::{le_u32, read_le_u32, ConstVoidPtr, Mem, MemError, Ptr};
use core::marker::PhantomData;
use vstd::prelude::*;

verus! {

/// Number of argument words passed in registers.
pub const ARG_REGS: usize = 4;

/// Types that can be passed as an argument or returned across the bridge.
pub trait GuestArg: Sized {
    /// Number of words the type occupies.
    spec fn reg_count() -> nat;

    /// The value that the words denote.
    spec fn from_words(words: Seq<u32>) -> Self;

    /// The words that denote a value.
    spec fn to_words(&self) -> Seq<u32>;

    fn count() -> (n: usize)
        ensures
            n == Self::reg_count(),
            1 <= n <= 4,
    ;

    fn from_regs(regs: &[u32]) -> (value: Self)
        requires
            regs@.len() == Self::reg_count(),
        ensures
            value == Self::from_words(regs@),
    ;

    fn to_regs(&self) -> (regs: Vec<u32>)
        ensures
            regs@ == self.to_words(),
            regs@.len() == Self::reg_count(),
    ;
}

impl GuestArg for u32 {
    open spec fn reg_count() -> nat {
        1
    }

    open spec fn from_words(words: Seq<u32>) -> u32 {
        words[0]
    }

    open spec fn to_words(&self) -> Seq<u32> {
        seq![*self]
    }

    fn count() -> (n: usize) {
        1
    }

    fn from_regs(regs: &[u32]) -> (value: u32) {
        regs[0]
    }

    fn to_regs(&self) -> (regs: Vec<u32>) {
        let mut out: Vec<u32> = Vec::new();
        out.push(*self);
        assert(out@ =~= seq![*self]);
        out
    }
}

impl GuestArg for i32 {
    open spec fn reg_count() -> nat {
        1
    }

    /// Two's complement: the word reinterpreted.
    open spec fn from_words(words: Seq<u32>) -> i32 {
        words[0] as i32
    }

    open spec fn to_words(&self) -> Seq<u32> {
        seq![*self as u32]
    }

    fn count() -> (n: usize) {
        1
    }

    fn from_regs(regs: &[u32]) -> (value: i32) {
        regs[0] as i32
    }

    fn to_regs(&self) -> (regs: Vec<u32>) {
        let mut out: Vec<u32> = Vec::new();
        out.push(*self as u32);
        assert(out@ =~= seq![*self as u32]);
        out
    }
}

impl GuestArg for u16 {
    open spec fn reg_count() -> nat {
        1
    }

    /// The low half of the word; the caller's promotion is undone.
    open spec fn from_words(words: Seq<u32>) -> u16 {
        (words[0] % 0x1_0000) as u16
    }

    open spec fn to_words(&self) -> Seq<u32> {
        seq![*self as u32]
    }

    fn count() -> (n: usize) {
        1
    }

    fn from_regs(regs: &[u32]) -> (value: u16) {
        (regs[0] % 0x1_0000) as u16
    }

    fn to_regs(&self) -> (regs: Vec<u32>) {
        let mut out: Vec<u32> = Vec::new();
        out.push(*self as u32);
        assert(out@ =~= seq![*self as u32]);
        out
    }
}

impl GuestArg for u8 {
    open spec fn reg_count() -> nat {
        1
    }

    /// The low byte of the word; the caller's promotion is undone.
    open spec fn from_words(words: Seq<u32>) -> u8 {
        (words[0] % 0x100) as u8
    }

    open spec fn to_words(&self) -> Seq<u32> {
        seq![*self as u32]
    }

    fn count() -> (n: usize) {
        1
    }

    fn from_regs(regs: &[u32]) -> (value: u8) {
        (regs[0] % 0x100) as u8
    }

    fn to_regs(&self) -> (regs: Vec<u32>) {
        let mut out: Vec<u32> = Vec::new();
        out.push(*self as u32);
        assert(out@ =~= seq![*self as u32]);
        out
    }
}

impl GuestArg for bool {
    open spec fn reg_count() -> nat {
        1
    }

    open spec fn from_words(words: Seq<u32>) -> bool {
        words[0] != 0
    }

    open spec fn to_words(&self) -> Seq<u32> {
        seq![if *self { 1u32 } else { 0u32 }]
    }

    fn count() -> (n: usize) {
        1
    }

    fn from_regs(regs: &[u32]) -> (value: bool) {
        regs[0] != 0
    }

    fn to_regs(&self) -> (regs: Vec<u32>) {
        let mut out: Vec<u32> = Vec::new();
        out.push(if *self { 1u32 } else { 0u32 });
        assert(out@ =~= seq![if *self { 1u32 } else { 0u32 }]);
        out
    }
}

impl GuestArg for u64 {
    open spec fn reg_count() -> nat {
        2
    }

    /// Least significant word first.
    open spec fn from_words(words: Seq<u32>) -> u64 {
        (words[0] as int + words[1] as int * 0x1_0000_0000) as u64
    }

    open spec fn to_words(&self) -> Seq<u32> {
        seq![(*self % 0x1_0000_0000) as u32, (*self / 0x1_0000_0000) as u32]
    }

    fn count() -> (n: usize) {
        2
    }

    fn from_regs(regs: &[u32]) -> (value: u64) {
        regs[0] as u64 + regs[1] as u64 * 0x1_0000_0000
    }

    fn to_regs(&self) -> (regs: Vec<u32>) {
        let mut out: Vec<u32> = Vec::new();
        out.push((*self % 0x1_0000_0000) as u32);
        out.push((*self / 0x1_0000_0000) as u32);
        assert(out@ =~= self.to_words());
        out
    }
}

/// The bit pattern of a double-precision floating-point argument.
#[derive(Clone, Copy, Debug, PartialEq, Eq, Structural)]
pub struct DoubleBits {
    pub bits: u64,
}

impl GuestArg for DoubleBits {
    open spec fn reg_count() -> nat {
        2
    }

    /// Least significant word first, not aligned to an even register.
    open spec fn from_words(words: Seq<u32>) -> DoubleBits {
        DoubleBits { bits: u64::from_words(words) }
    }

    open spec fn to_words(&self) -> Seq<u32> {
        self.bits.to_words()
    }

    fn count() -> (n: usize) {
        2
    }

    fn from_regs(regs: &[u32]) -> (value: DoubleBits) {
        DoubleBits { bits: u64::from_regs(regs) }
    }

    fn to_regs(&self) -> (regs: Vec<u32>) {
        self.bits.to_regs()
    }
}

/// The bit pattern of a single-precision floating-point argument.
#[derive(Clone, Copy, Debug, PartialEq, Eq, Structural)]
pub struct FloatBits {
    pub bits: u32,
}

impl GuestArg for FloatBits {
    open spec fn reg_count() -> nat {
        1
    }

    open spec fn from_words(words: Seq<u32>) -> FloatBits {
        FloatBits { bits: words[0] }
    }

    open spec fn to_words(&self) -> Seq<u32> {
        seq![self.bits]
    }

    fn count() -> (n: usize) {
        1
    }

    fn from_regs(regs: &[u32]) -> (value: FloatBits) {
        FloatBits { bits: regs[0] }
    }

    fn to_regs(&self) -> (regs: Vec<u32>) {
        let mut out: Vec<u32> = Vec::new();
        out.push(self.bits);
        assert(out@ =~= seq![self.bits]);
        out
    }
}

impl<T, const MUT: bool> GuestArg for Ptr<T, MUT> {
    open spec fn reg_count() -> nat {
        1
    }

    open spec fn from_words(words: Seq<u32>) -> Self {
        Ptr { addr: words[0], pointee: PhantomData }
    }

    open spec fn to_words(&self) -> Seq<u32> {
        seq![self.addr]
    }

    fn count() -> (n: usize) {
        1
    }

    fn from_regs(regs: &[u32]) -> (value: Self) {
        Ptr::from_bits(regs[0])
    }

    fn to_regs(&self) -> (regs: Vec<u32>) {
        let mut out: Vec<u32> = Vec::new();
        out.push(self.addr);
        assert(out@ =~= seq![self.addr]);
        out
    }
}

/// Address of a function in guest code. The lowest bit tells the instruction
/// set: set for Thumb, clear for ARM.
#[derive(Clone, Copy, Debug, PartialEq, Eq, Structural)]
pub struct GuestFunction {
    pub addr: u32,
}

impl GuestFunction {
    /// The function at an address whose lowest bit tells the instruction set.
    pub fn from_addr_with_thumb_bit(addr: u32) -> (f: GuestFunction)
        ensures
            f.addr == addr,
    {
        GuestFunction { addr }
    }

    /// The address, with the bit that tells the instruction set.
    pub fn addr_with_thumb_bit(self) -> (addr: u32)
        ensures
            addr == self.addr,
    {
        self.addr
    }

    /// Whether the function is Thumb code.
    pub fn is_thumb(self) -> (thumb: bool)
        ensures
            thumb == (self.addr % 2 == 1),
    {
        self.addr % 2 == 1
    }

    /// The address of the first instruction.
    pub fn addr_without_thumb_bit(self) -> (addr: u32)
        ensures
            addr == self.addr - self.addr % 2,
    {
        self.addr - self.addr % 2
    }
}

impl GuestArg for GuestFunction {
    open spec fn reg_count() -> nat {
        1
    }

    open spec fn from_words(words: Seq<u32>) -> GuestFunction {
        GuestFunction { addr: words[0] }
    }

    open spec fn to_words(&self) -> Seq<u32> {
        seq![self.addr]
    }

    fn count() -> (n: usize) {
        1
    }

    fn from_regs(regs: &[u32]) -> (value: GuestFunction) {
        GuestFunction { addr: regs[0] }
    }

    fn to_regs(&self) -> (regs: Vec<u32>) {
        let mut out: Vec<u32> = Vec::new();
        out.push(self.addr);
        assert(out@ =~= seq![self.addr]);
        out
    }
}

/// The word in stack slot `slot`, counted from `stack`.
pub open spec fn stack_word(mem: &Mem, stack: int, slot: int) -> u32 {
    le_u32(mem.contents().subrange(stack + 4 * slot, stack + 4 * slot + 4))
}

/// The `index`-th argument word of a call: a register for the first four, a
/// stack slot after that.
pub open spec fn arg_word(regs: Seq<u32>, mem: &Mem, stack: int, index: int) -> u32 {
    if index < ARG_REGS {
        regs[index]
    } else {
        stack_word(mem, stack, index - ARG_REGS)
    }
}

/// The `count` argument words from `offset` on.
pub open spec fn arg_words(regs: Seq<u32>, mem: &Mem, stack: int, offset: int, count: int) -> Seq<
    u32,
> {
    Seq::new(count as nat, |k: int| arg_word(regs, mem, stack, offset + k))
}

/// First stack slot that the `count` words from `offset` on reach.
pub open spec fn first_slot(offset: int) -> int {
    if offset < ARG_REGS {
        0
    } else {
        offset - ARG_REGS
    }
}

/// Number of stack slots that the `count` words from `offset` on reach.
pub open spec fn slot_count(offset: int, count: int) -> int {
    if offset + count <= ARG_REGS {
        0
    } else {
        offset + count - ARG_REGS - first_slot(offset)
    }
}

/// What fetching the `count` words from `offset` on is answered with: no
/// memory is touched while the words are all in registers, else the stack
/// slots are read in one access.
pub open spec fn arg_access(mem: &Mem, stack: int, offset: int, count: int) -> Result<
    (),
    MemError,
> {
    if slot_count(offset, count) == 0 {
        Ok(())
    } else {
        mem.access_result(stack + 4 * first_slot(offset), 4 * slot_count(offset, count))
    }
}

/// Reads the next argument of type `T` and moves the offset past it. Used for
/// the fixed arguments of a call from offset 0 on, and by the variadic cursor.
pub fn read_next_arg<T: GuestArg>(
    reg_offset: &mut usize,
    regs: &[u32; 16],
    stack: ConstVoidPtr,
    mem: &Mem,
) -> (res: Result<T, MemError>)
    requires
        mem.wf(),
    ensures
        match res {
            Ok(value) => {
                &&& arg_access(mem, stack@, *old(reg_offset) as int, T::reg_count() as int) is Ok
                &&& value == T::from_words(
                    arg_words(regs@, mem, stack@, *old(reg_offset) as int, T::reg_count() as int),
                )
                &&& *final(reg_offset) == *old(reg_offset) + T::reg_count()
            },
            Err(e) => {
                &&& arg_access(mem, stack@, *old(reg_offset) as int, T::reg_count() as int)
                    == Err::<(), MemError>(e)
                &&& *final(reg_offset) == *old(reg_offset)
            },
        },
{
    let count = T::count();
    let offset: usize = *reg_offset;
    let ghost want = arg_words(regs@, mem, stack@, offset as int, count as int);
    if offset > 0x4000_0004 {
        proof {
            mem.lemma_ranges(
                stack@ + 4 * first_slot(offset as int),
                4 * slot_count(offset as int, count as int),
            );
        }
        return Err(MemError::OutOfBounds);
    }
    let mut words: Vec<u32> = Vec::new();
    if offset + count <= 4 {
        let mut k: usize = 0;
        while k < count
            invariant
                k <= count,
                offset + count <= 4,
                words@.len() == k,
                want == arg_words(regs@, mem, stack@, offset as int, count as int),
                forall|j: int| 0 <= j < k ==> words@[j] == want[j],
            decreases count - k,
        {
            words.push(regs[offset + k]);
            k += 1;
        }
    } else {
        let lo: usize = if offset < 4 {
            0
        } else {
            offset - 4
        };
        let n: usize = offset + count - 4 - lo;
        let start: u64 = stack.to_bits() as u64 + 4 * (lo as u64);
        if start > 0xffff_ffff {
            proof {
                mem.lemma_ranges(start as int, 4 * n);
            }
            return Err(MemError::OutOfBounds);
        }
        let base: Ptr<u8, false> = Ptr::from_bits(start as u32);
        let bytes = match mem.bytes_at(base, (4 * n) as u32) {
            Ok(bytes) => bytes,
            Err(e) => {
                return Err(e);
            },
        };
        proof {
            mem.lemma_ranges(start as int, 4 * n);
        }
        let mut k: usize = 0;
        while k < count
            invariant
                k <= count,
                1 <= count <= 4,
                offset + count > 4,
                offset <= 0x4000_0004,
                lo == first_slot(offset as int),
                n == slot_count(offset as int, count as int),
                start == stack@ + 4 * lo,
                bytes@ == mem.contents().subrange(start as int, start + 4 * n),
                start + 4 * n <= mem.contents().len(),
                words@.len() == k,
                want == arg_words(regs@, mem, stack@, offset as int, count as int),
                forall|j: int| 0 <= j < k ==> words@[j] == want[j],
            decreases count - k,
        {
            let index: usize = offset + k;
            if index < 4 {
                words.push(regs[index]);
            } else {
                let at: usize = 4 * (index - 4 - lo);
                let w = read_le_u32(bytes, at);
                proof {
                    assert(bytes@.subrange(at as int, at + 4) =~= mem.contents().subrange(
                        stack@ + 4 * (index - 4),
                        stack@ + 4 * (index - 4) + 4,
                    ));
                }
                words.push(w);
            }
            k += 1;
        }
    }
    assert(words@ =~= want);
    *reg_offset = offset + count;
    Ok(T::from_regs(words.as_slice()))
}

/// Puts a return value where the guest expects it: in `r0`, and `r1` for the
/// upper half of a 64-bit value. The other registers are left alone.
pub fn write_return<T: GuestArg>(cpu: &mut Cpu, value: T)
    ensures
        forall|i: int|
            0 <= i < 16 ==> #[trigger] final(cpu).regs@[i] == if i < T::reg_count() {
                value.to_words()[i]
            } else {
                old(cpu).regs@[i]
            },
{
    let words = value.to_regs();
    let count = T::count();
    let mut k: usize = 0;
    while k < words.len()
        invariant
            k <= words@.len() <= 4,
            forall|i: int|
                0 <= i < 16 ==> #[trigger] cpu.regs@[i] == if i < k {
                    words@[i]
                } else {
                    old(cpu).regs@[i]
                },
        decreases words@.len() - k,
    {
        cpu.set_reg(k, words[k]);
        k += 1;
    }
}

/// A cursor over the argument words of one call. It only ever moves forward.
#[derive(Clone, Copy)]
pub struct VaList {
    /// Index of the next argument word.
    pub reg_offset: usize,
    /// Address of the first stack slot of the call.
    pub stack: ConstVoidPtr,
}

/// The variable part of a variadic call's arguments.
#[derive(Clone, Copy)]
pub struct DotDotDot {
    pub args: VaList,
}

impl DotDotDot {
    /// The variable arguments of a call whose fixed arguments took
    /// `reg_offset` words and whose stack arguments start at `stack`.
    pub fn new(reg_offset: usize, stack: ConstVoidPtr) -> (dots: DotDotDot)
        ensures
            dots.args.reg_offset == reg_offset,
            dots.args.stack == stack,
    {
        DotDotDot { args: VaList { reg_offset, stack } }
    }

    /// A cursor positioned at the first variable argument.
    pub fn start(&self) -> (args: VaList)
        ensures
            args == self.args,
    {
        VaList { reg_offset: self.args.reg_offset, stack: self.args.stack }
    }
}

impl VaList {
    /// A cursor over arguments that all lie in memory, starting at `ptr`.
    pub fn from_pointer(ptr: ConstVoidPtr) -> (args: VaList)
        ensures
            args.reg_offset == ARG_REGS,
            args.stack == ptr,
    {
        VaList { reg_offset: 4, stack: ptr }
    }

    /// The argument words that a `T` at the cursor is made of.
    pub open spec fn peek_words<T: GuestArg>(&self, env: &Environment) -> Seq<u32> {
        arg_words(
            env.cpu.regs@,
            &env.mem,
            self.stack@,
            self.reg_offset as int,
            T::reg_count() as int,
        )
    }

    /// What fetching a `T` at the cursor is answered with.
    pub open spec fn peek_access<T: GuestArg>(&self, env: &Environment) -> Result<(), MemError> {
        arg_access(&env.mem, self.stack@, self.reg_offset as int, T::reg_count() as int)
    }

    /// Takes the next argument as a `T` and advances past it. On an error the
    /// cursor stays where it was.
    pub fn next<T: GuestArg>(&mut self, env: &Environment) -> (res: Result<T, MemError>)
        requires
            env.wf(),
        ensures
            final(self).stack == old(self).stack,
            match res {
                Ok(value) => {
                    &&& old(self).peek_access::<T>(env) is Ok
                    &&& value == T::from_words(old(self).peek_words::<T>(env))
                    &&& final(self).reg_offset == old(self).reg_offset + T::reg_count()
                },
                Err(e) => {
                    &&& old(self).peek_access::<T>(env) == Err::<(), MemError>(e)
                    &&& final(self).reg_offset == old(self).reg_offset
                },
            },
    {
        let mut offset: usize = self.reg_offset;
        let res = read_next_arg::<T>(&mut offset, env.cpu.regs(), self.stack, &env.mem);
        self.reg_offset = offset;
        res
    }
}

} // verus!
