//! Guest memory: a simulated 32-bit linear address space.
//!
//! Every access is checked against the allocation table. An access succeeds
//! only when the whole range lies inside one live allocation; anything else is
//! reported as an error and leaves the memory untouched.

use core::marker::PhantomData;
use vstd::prelude::*;

verus! {

/// A guest virtual address.
pub type VAddr = u32;

/// The guest's `size_t`.
pub type GuestUSize = u32;

/// First address that may ever be handed out. The page below it stays
/// unmapped so that null-pointer accesses are caught.
pub const NULL_PAGE_SIZE: u32 = 0x1000;

/// Allocation granularity. Every allocation starts on a multiple of it.
pub const ALLOC_ALIGN: u32 = 16;

/// Highest value the break may reach.
pub const ADDRESS_LIMIT: u32 = 0xffff_fff0;

/// Why a memory operation was refused.
#[derive(Clone, Copy, Debug, PartialEq, Eq, Structural)]
pub enum MemError {
    /// The range is not inside any allocation, live or freed.
    OutOfBounds,
    /// The range lies inside an allocation that has been freed.
    UseAfterFree,
    /// The allocation at this address has already been freed.
    DoubleFree,
    /// No allocation starts at this address.
    InvalidFree,
    /// The address space is exhausted.
    OutOfMemory,
    /// An allocation of zero bytes was requested.
    ZeroSize,
}

/// One entry of the allocation table.
#[derive(Clone, Copy, Debug, PartialEq, Eq, Structural)]
pub struct AllocRecord {
    pub base: VAddr,
    pub size: GuestUSize,
    pub live: bool,
}

/// Pointee type of untyped pointers.
#[derive(Clone, Copy, Debug)]
pub struct Void {}

/// A guest pointer, typed by what it points at and by whether the pointee may
/// be written through it.
#[derive(Debug)]
pub struct Ptr<T, const MUT: bool> {
    pub addr: VAddr,
    pub pointee: PhantomData<T>,
}

/// A pointer for reading only.
pub type ConstPtr<T> = Ptr<T, false>;

/// A pointer for reading and writing.
pub type MutPtr<T> = Ptr<T, true>;

/// An untyped pointer for reading only.
pub type ConstVoidPtr = ConstPtr<Void>;

/// An untyped pointer for reading and writing.
pub type MutVoidPtr = MutPtr<Void>;

impl<T, const MUT: bool> View for Ptr<T, MUT> {
    type V = int;

    /// A pointer is viewed as its address.
    open spec fn view(&self) -> int {
        self.addr as int
    }
}

impl<T, const MUT: bool> Clone for Ptr<T, MUT> {
    fn clone(&self) -> (res: Self)
        ensures
            res == *self,
    {
        Ptr { addr: self.addr, pointee: PhantomData }
    }
}

impl<T, const MUT: bool> Copy for Ptr<T, MUT> {

}

impl<T, const MUT: bool> Ptr<T, MUT> {
    /// The null pointer.
    pub fn null() -> (p: Self)
        ensures
            p@ == 0,
    {
        Ptr { addr: 0, pointee: PhantomData }
    }

    /// The pointer that holds an address.
    pub fn from_bits(bits: VAddr) -> (p: Self)
        ensures
            p@ == bits,
    {
        Ptr { addr: bits, pointee: PhantomData }
    }

    /// The address that the pointer holds.
    pub fn to_bits(self) -> (bits: VAddr)
        ensures
            bits == self@,
    {
        self.addr
    }

    /// Whether this is the null pointer.
    pub fn is_null(self) -> (b: bool)
        ensures
            b == (self@ == 0),
    {
        self.addr == 0
    }

    /// The same address, seen as pointing at a `U`.
    pub fn cast<U>(self) -> (p: Ptr<U, MUT>)
        ensures
            p@ == self@,
    {
        Ptr { addr: self.addr, pointee: PhantomData }
    }

    /// The same pointer, for writing through it.
    pub fn cast_mut(self) -> (p: MutPtr<T>)
        ensures
            p@ == self@,
    {
        Ptr { addr: self.addr, pointee: PhantomData }
    }

    /// The same pointer, for reading only.
    pub fn cast_const(self) -> (p: ConstPtr<T>)
        ensures
            p@ == self@,
    {
        Ptr { addr: self.addr, pointee: PhantomData }
    }

    /// Whether two pointers hold the same address.
    pub fn same(self, other: Self) -> (b: bool)
        ensures
            b == (self@ == other@),
    {
        self.addr == other.addr
    }
}

/// Address of the `index`-th element of `size` bytes counted from `base`.
pub open spec fn element_addr(base: int, size: nat, index: int) -> int {
    base + size * index
}

impl<T: SafeRead, const MUT: bool> Ptr<T, MUT> {
    /// Pointer to the `index`-th element after this one, or `None` when that
    /// address does not fit the guest address space.
    pub fn offset(self, index: GuestUSize) -> (res: Option<Self>)
        ensures
            match res {
                Some(p) => p@ == element_addr(self@, T::guest_size(), index as int),
                None => element_addr(self@, T::guest_size(), index as int) > u32::MAX,
            },
    {
        let size: u64 = T::size() as u64;
        assert(size * (index as u64) <= 0xffff_ffff * 0xffff_ffff) by (nonlinear_arith)
            requires
                size <= 0xffff_ffff,
                index <= 0xffff_ffff,
        ;
        let target: u64 = self.addr as u64 + size * (index as u64);
        if target > 0xffff_ffff {
            None
        } else {
            Some(Ptr { addr: target as u32, pointee: PhantomData })
        }
    }
}

/// Types that may be read out of guest memory: their guest layout is a fixed
/// number of bytes and every byte pattern of that length denotes a value.
pub trait SafeRead: Sized {
    /// Number of bytes the type occupies in guest memory.
    spec fn guest_size() -> nat;

    /// The value that a byte sequence of that length denotes.
    spec fn from_guest(bytes: Seq<u8>) -> Self;

    fn size() -> (n: GuestUSize)
        ensures
            n == Self::guest_size(),
    ;

    fn decode(bytes: &[u8]) -> (value: Self)
        requires
            bytes@.len() == Self::guest_size(),
        ensures
            value == Self::from_guest(bytes@),
    ;
}

/// Types that may also be written to guest memory.
pub trait SafeWrite: SafeRead {
    /// The guest representation of a value.
    spec fn to_guest(&self) -> Seq<u8>;

    fn encode(&self) -> (bytes: Vec<u8>)
        ensures
            bytes@ == self.to_guest(),
            bytes@.len() == Self::guest_size(),
    ;

    /// Reading back what was written gives the value that was written.
    proof fn lemma_round_trip(&self)
        ensures
            self.to_guest().len() == Self::guest_size(),
            Self::from_guest(self.to_guest()) == *self,
    ;
}

/// Little-endian value of the first two bytes of `b`.
pub open spec fn le_u16(b: Seq<u8>) -> u16 {
    (b[0] as int + b[1] as int * 0x100) as u16
}

/// Little-endian value of the first four bytes of `b`.
pub open spec fn le_u32(b: Seq<u8>) -> u32 {
    (b[0] as int + b[1] as int * 0x100 + b[2] as int * 0x1_0000 + b[3] as int * 0x100_0000) as u32
}

/// Little-endian value of the first eight bytes of `b`.
pub open spec fn le_u64(b: Seq<u8>) -> u64 {
    (le_u32(b) as int + le_u32(b.subrange(4, 8)) as int * 0x1_0000_0000) as u64
}

/// The two bytes of `v`, least significant first.
pub open spec fn u16_le(v: u16) -> Seq<u8> {
    seq![(v % 0x100) as u8, (v / 0x100) as u8]
}

/// The four bytes of `v`, least significant first.
pub open spec fn u32_le(v: u32) -> Seq<u8> {
    seq![
        (v % 0x100) as u8,
        (v / 0x100 % 0x100) as u8,
        (v / 0x1_0000 % 0x100) as u8,
        (v / 0x100_0000) as u8,
    ]
}

/// The eight bytes of `v`, least significant first.
pub open spec fn u64_le(v: u64) -> Seq<u8> {
    u32_le((v % 0x1_0000_0000) as u32) + u32_le((v / 0x1_0000_0000) as u32)
}

/// The four bytes of a word denote the word.
pub proof fn lemma_u32_le_round_trip(v: u32)
    ensures
        u32_le(v).len() == 4,
        le_u32(u32_le(v)) == v,
{
}

/// The eight bytes of a double word denote the double word.
pub proof fn lemma_u64_le_round_trip(v: u64)
    ensures
        u64_le(v).len() == 8,
        le_u64(u64_le(v)) == v,
{
    let lo = (v % 0x1_0000_0000) as u32;
    let hi = (v / 0x1_0000_0000) as u32;
    lemma_u32_le_round_trip(lo);
    lemma_u32_le_round_trip(hi);
    let b = u64_le(v);
    assert(b.subrange(4, 8) =~= u32_le(hi));
    assert(b[0] == u32_le(lo)[0] && b[1] == u32_le(lo)[1] && b[2] == u32_le(lo)[2] && b[3]
        == u32_le(lo)[3]);
}

pub(crate) fn read_le_u32(bytes: &[u8], at: usize) -> (v: u32)
    requires
        at + 4 <= bytes@.len(),
    ensures
        v == le_u32(bytes@.subrange(at as int, at + 4)),
{
    let v: u32 = bytes[at] as u32 + bytes[at + 1] as u32 * 0x100 + bytes[at + 2] as u32 * 0x1_0000
        + bytes[at + 3] as u32 * 0x100_0000;
    v
}

pub(crate) fn push_le_u32(out: &mut Vec<u8>, v: u32)
    ensures
        final(out)@ == old(out)@ + u32_le(v),
{
    out.push((v % 0x100) as u8);
    out.push((v / 0x100 % 0x100) as u8);
    out.push((v / 0x1_0000 % 0x100) as u8);
    out.push((v / 0x100_0000) as u8);
    assert(out@ =~= old(out)@ + u32_le(v));
}

impl SafeRead for u8 {
    open spec fn guest_size() -> nat {
        1
    }

    open spec fn from_guest(bytes: Seq<u8>) -> u8 {
        bytes[0]
    }

    fn size() -> (n: GuestUSize) {
        1
    }

    fn decode(bytes: &[u8]) -> (value: u8) {
        bytes[0]
    }
}

impl SafeWrite for u8 {
    open spec fn to_guest(&self) -> Seq<u8> {
        seq![*self]
    }

    fn encode(&self) -> (bytes: Vec<u8>) {
        let mut out: Vec<u8> = Vec::new();
        out.push(*self);
        assert(out@ =~= seq![*self]);
        out
    }

    proof fn lemma_round_trip(&self) {
    }
}

impl SafeRead for u16 {
    open spec fn guest_size() -> nat {
        2
    }

    open spec fn from_guest(bytes: Seq<u8>) -> u16 {
        le_u16(bytes)
    }

    fn size() -> (n: GuestUSize) {
        2
    }

    fn decode(bytes: &[u8]) -> (value: u16) {
        let v: u16 = bytes[0] as u16 + bytes[1] as u16 * 0x100;
        v
    }
}

impl SafeWrite for u16 {
    open spec fn to_guest(&self) -> Seq<u8> {
        u16_le(*self)
    }

    fn encode(&self) -> (bytes: Vec<u8>) {
        let mut out: Vec<u8> = Vec::new();
        out.push((*self % 0x100) as u8);
        out.push((*self / 0x100) as u8);
        assert(out@ =~= u16_le(*self));
        out
    }

    proof fn lemma_round_trip(&self) {
    }
}

impl SafeRead for u32 {
    open spec fn guest_size() -> nat {
        4
    }

    open spec fn from_guest(bytes: Seq<u8>) -> u32 {
        le_u32(bytes)
    }

    fn size() -> (n: GuestUSize) {
        4
    }

    fn decode(bytes: &[u8]) -> (value: u32) {
        assert(bytes@.subrange(0, 4) =~= bytes@);
        read_le_u32(bytes, 0)
    }
}

impl SafeWrite for u32 {
    open spec fn to_guest(&self) -> Seq<u8> {
        u32_le(*self)
    }

    fn encode(&self) -> (bytes: Vec<u8>) {
        let mut out: Vec<u8> = Vec::new();
        push_le_u32(&mut out, *self);
        assert(out@ =~= u32_le(*self));
        out
    }

    proof fn lemma_round_trip(&self) {
        lemma_u32_le_round_trip(*self);
    }
}

impl SafeRead for i32 {
    open spec fn guest_size() -> nat {
        4
    }

    /// Two's complement: the unsigned value reinterpreted.
    open spec fn from_guest(bytes: Seq<u8>) -> i32 {
        le_u32(bytes) as i32
    }

    fn size() -> (n: GuestUSize) {
        4
    }

    fn decode(bytes: &[u8]) -> (value: i32) {
        assert(bytes@.subrange(0, 4) =~= bytes@);
        read_le_u32(bytes, 0) as i32
    }
}

impl SafeWrite for i32 {
    open spec fn to_guest(&self) -> Seq<u8> {
        u32_le(*self as u32)
    }

    fn encode(&self) -> (bytes: Vec<u8>) {
        let mut out: Vec<u8> = Vec::new();
        push_le_u32(&mut out, *self as u32);
        assert(out@ =~= u32_le(*self as u32));
        out
    }

    proof fn lemma_round_trip(&self) {
        lemma_u32_le_round_trip(*self as u32);
        assert((*self as u32) as i32 == *self) by (bit_vector);
    }
}

impl SafeRead for u64 {
    open spec fn guest_size() -> nat {
        8
    }

    open spec fn from_guest(bytes: Seq<u8>) -> u64 {
        le_u64(bytes)
    }

    fn size() -> (n: GuestUSize) {
        8
    }

    fn decode(bytes: &[u8]) -> (value: u64) {
        assert(bytes@.subrange(0, 4)[0] == bytes@[0] && bytes@.subrange(0, 4)[1] == bytes@[1]
            && bytes@.subrange(0, 4)[2] == bytes@[2] && bytes@.subrange(0, 4)[3] == bytes@[3]);
        let lo: u64 = read_le_u32(bytes, 0) as u64;
        let hi: u64 = read_le_u32(bytes, 4) as u64;
        lo + hi * 0x1_0000_0000
    }
}

impl SafeWrite for u64 {
    open spec fn to_guest(&self) -> Seq<u8> {
        u64_le(*self)
    }

    fn encode(&self) -> (bytes: Vec<u8>) {
        let mut out: Vec<u8> = Vec::new();
        push_le_u32(&mut out, (*self % 0x1_0000_0000) as u32);
        push_le_u32(&mut out, (*self / 0x1_0000_0000) as u32);
        assert(out@ =~= u64_le(*self));
        out
    }

    proof fn lemma_round_trip(&self) {
        lemma_u64_le_round_trip(*self);
    }
}

impl<T, const MUT: bool> SafeRead for Ptr<T, MUT> {
    open spec fn guest_size() -> nat {
        4
    }

    open spec fn from_guest(bytes: Seq<u8>) -> Self {
        Ptr { addr: le_u32(bytes), pointee: PhantomData }
    }

    fn size() -> (n: GuestUSize) {
        4
    }

    fn decode(bytes: &[u8]) -> (value: Self) {
        assert(bytes@.subrange(0, 4) =~= bytes@);
        Ptr { addr: read_le_u32(bytes, 0), pointee: PhantomData }
    }
}

impl<T, const MUT: bool> SafeWrite for Ptr<T, MUT> {
    open spec fn to_guest(&self) -> Seq<u8> {
        u32_le(self.addr)
    }

    fn encode(&self) -> (bytes: Vec<u8>) {
        let mut out: Vec<u8> = Vec::new();
        push_le_u32(&mut out, self.addr);
        assert(out@ =~= u32_le(self.addr));
        out
    }

    proof fn lemma_round_trip(&self) {
        lemma_u32_le_round_trip(self.addr);
    }
}


/// Whether the `len` bytes starting at `addr` lie inside the record.
pub open spec fn record_covers(r: AllocRecord, addr: int, len: int) -> bool {
    len >= 0 && r.base <= addr && addr + len <= r.base + r.size
}

/// Bytes set aside for an allocation of `size` bytes: the size rounded up to
/// the allocation granularity, with at least one byte beyond the end that
/// belongs to no allocation.
pub open spec fn chunk_size(size: int) -> int {
    (size / (ALLOC_ALIGN as int) + 1) * (ALLOC_ALIGN as int)
}

/// `contents` with the bytes from `at` on replaced by `data`.
pub open spec fn overwrite(contents: Seq<u8>, at: int, data: Seq<u8>) -> Seq<u8> {
    Seq::new(
        contents.len(),
        |k: int|
            if at <= k < at + data.len() {
                data[k - at]
            } else {
                contents[k]
            },
    )
}

/// The guest address space together with its allocation table.
pub struct Mem {
    bytes: Vec<u8>,
    records: Vec<AllocRecord>,
}

impl Mem {
    /// The bytes of the address space, indexed by address, up to the break.
    pub closed spec fn contents(&self) -> Seq<u8> {
        self.bytes@
    }

    /// The allocation table, oldest allocation first.
    pub closed spec fn records(&self) -> Seq<AllocRecord> {
        self.records@
    }

    /// The break: the first address that has never been part of a chunk.
    pub open spec fn brk(&self) -> int {
        self.contents().len() as int
    }

    /// The table is ordered by address, its records lie above the null page
    /// and below the break, and any two of them are at least one byte apart.
    pub closed spec fn wf(&self) -> bool {
        &&& NULL_PAGE_SIZE <= self.bytes@.len() <= ADDRESS_LIMIT
        &&& self.bytes@.len() % (ALLOC_ALIGN as nat) == 0
        &&& forall|i: int|
            0 <= i < self.records@.len() ==> {
                &&& (#[trigger] self.records@[i]).size > 0
                &&& self.records@[i].base >= NULL_PAGE_SIZE
                &&& self.records@[i].base % ALLOC_ALIGN == 0
                &&& self.records@[i].base + self.records@[i].size < self.bytes@.len()
            }
        &&& forall|i: int, j: int|
            0 <= i < j < self.records@.len() ==> (#[trigger] self.records@[i]).base
                + self.records@[i].size < (#[trigger] self.records@[j]).base
    }

    /// The range lies inside one live allocation.
    pub open spec fn accessible(&self, addr: int, len: int) -> bool {
        exists|i: int|
            0 <= i < self.records().len() && (#[trigger] self.records()[i]).live && record_covers(
                self.records()[i],
                addr,
                len,
            )
    }

    /// The range lies inside one allocation that has been freed.
    pub open spec fn released(&self, addr: int, len: int) -> bool {
        exists|i: int|
            0 <= i < self.records().len() && !(#[trigger] self.records()[i]).live
                && record_covers(self.records()[i], addr, len)
    }

    /// What an access to the range is answered with.
    pub open spec fn access_result(&self, addr: int, len: int) -> Result<(), MemError> {
        if self.accessible(addr, len) {
            Ok(())
        } else if self.released(addr, len) {
            Err(MemError::UseAfterFree)
        } else {
            Err(MemError::OutOfBounds)
        }
    }

    /// Some live allocation starts at `base`.
    pub open spec fn live_at(&self, base: int) -> bool {
        exists|i: int|
            0 <= i < self.records().len() && (#[trigger] self.records()[i]).base == base
                && self.records()[i].live
    }

    /// Some freed allocation starts at `base`.
    pub open spec fn freed_at(&self, base: int) -> bool {
        exists|i: int|
            0 <= i < self.records().len() && (#[trigger] self.records()[i]).base == base
                && !self.records()[i].live
    }

    /// What freeing the allocation at `base` is answered with.
    pub open spec fn free_result(&self, base: int) -> Result<(), MemError> {
        if self.live_at(base) {
            Ok(())
        } else if self.freed_at(base) {
            Err(MemError::DoubleFree)
        } else {
            Err(MemError::InvalidFree)
        }
    }

    /// The table after the allocation at `base` has been marked as freed.
    pub open spec fn records_after_free(&self, base: int) -> Seq<AllocRecord> {
        Seq::new(
            self.records().len(),
            |i: int|
                if self.records()[i].base == base {
                    AllocRecord { base: self.records()[i].base, size: self.records()[i].size, live: false }
                } else {
                    self.records()[i]
                },
        )
    }

    /// Whether an allocation of `size` bytes still fits below the limit.
    pub open spec fn fits(&self, size: int) -> bool {
        self.brk() + chunk_size(size) <= ADDRESS_LIMIT
    }

    /// An accessible or released range lies below the break, above the null
    /// page, and no range is both accessible and released.
    pub proof fn lemma_ranges(&self, addr: int, len: int)
        requires
            self.wf(),
        ensures
            self.accessible(addr, len) || self.released(addr, len) ==> NULL_PAGE_SIZE <= addr
                && addr + len < self.brk(),
            !(self.accessible(addr, len) && self.released(addr, len)),
            NULL_PAGE_SIZE <= self.brk() <= ADDRESS_LIMIT,
    {
    }

    /// An address space whose only content is the unmapped null page.
    pub fn new() -> (mem: Mem)
        ensures
            mem.wf(),
            mem.records() == Seq::<AllocRecord>::empty(),
            mem.brk() == NULL_PAGE_SIZE,
    {
        let mut bytes: Vec<u8> = Vec::new();
        bytes.resize(0x1000, 0u8);
        Mem { bytes, records: Vec::new() }
    }

    /// The address that the next successful allocation will return.
    pub fn next_address(&self) -> (addr: VAddr)
        requires
            self.wf(),
        ensures
            addr == self.brk(),
    {
        self.bytes.len() as u32
    }

    /// Index of the record that covers the range, or the error the access is
    /// answered with.
    fn find(&self, addr: VAddr, len: usize) -> (res: Result<usize, MemError>)
        requires
            self.wf(),
        ensures
            match res {
                Ok(i) => i < self.records().len() && self.records()[i as int].live
                    && record_covers(self.records()[i as int], addr as int, len as int)
                    && self.access_result(addr as int, len as int) == Ok::<(), MemError>(()),
                Err(e) => self.access_result(addr as int, len as int) == Err::<(), MemError>(e),
            },
    {
        if len > 0xffff_ffff {
            return Err(MemError::OutOfBounds);
        }
        let mut i: usize = 0;
        while i < self.records.len()
            invariant
                self.wf(),
                len <= 0xffff_ffff,
                i <= self.records@.len(),
                forall|j: int|
                    0 <= j < i ==> !record_covers(
                        #[trigger] self.records@[j],
                        addr as int,
                        len as int,
                    ),
            decreases self.records@.len() - i,
        {
            let r = self.records[i];
            if r.base <= addr && (addr as u64) + (len as u64) <= (r.base as u64) + (r.size as u64) {
                if r.live {
                    return Ok(i);
                } else {
                    proof {
                        assert forall|j: int|
                            0 <= j < self.records().len() && record_covers(
                                #[trigger] self.records()[j],
                                addr as int,
                                len as int,
                            ) implies j == i by {
                            if j < i {
                            } else if j > i {
                            }
                        }
                        assert(record_covers(self.records()[i as int], addr as int, len as int));
                        assert(self.released(addr as int, len as int));
                        assert(!self.accessible(addr as int, len as int));
                    }
                    return Err(MemError::UseAfterFree);
                }
            }
            i += 1;
        }
        Err(MemError::OutOfBounds)
    }

    /// Checks a range without reading it.
    pub fn check_access(&self, addr: VAddr, len: GuestUSize) -> (res: Result<(), MemError>)
        requires
            self.wf(),
        ensures
            res == self.access_result(addr as int, len as int),
    {
        match self.find(addr, len as usize) {
            Ok(_) => Ok(()),
            Err(e) => Err(e),
        }
    }

    /// Sets aside `size` zeroed bytes at a fresh address. Addresses are never
    /// handed out twice, so a stale pointer can never reach a later
    /// allocation. The byte just beyond the allocation is never accessible.
    pub fn allocate(&mut self, size: GuestUSize) -> (res: Result<MutVoidPtr, MemError>)
        requires
            old(self).wf(),
        ensures
            final(self).wf(),
            match res {
                Ok(p) => {
                    &&& size > 0
                    &&& old(self).fits(size as int)
                    &&& p@ == old(self).brk()
                    &&& p@ % (ALLOC_ALIGN as int) == 0
                    &&& final(self).records() == old(self).records().push(
                        AllocRecord { base: p.addr, size, live: true },
                    )
                    &&& final(self).brk() == old(self).brk() + chunk_size(size as int)
                    &&& final(self).contents().subrange(0, old(self).brk()) == old(self).contents()
                    &&& forall|k: int|
                        old(self).brk() <= k < final(self).brk() ==> final(self).contents()[k] == 0
                    &&& forall|off: int|
                        0 <= off < size ==> final(self).accessible(#[trigger] (p@ + off), 1)
                    &&& !final(self).accessible(p@ + size, 1)
                },
                Err(e) => {
                    &&& *final(self) == *old(self)
                    &&& e == MemError::ZeroSize <==> size == 0
                    &&& e == MemError::OutOfMemory <==> size > 0 && !old(self).fits(size as int)
                    &&& e == MemError::ZeroSize || e == MemError::OutOfMemory
                },
            },
    {
        if size == 0 {
            return Err(MemError::ZeroSize);
        }
        let base: usize = self.bytes.len();
        let chunk: u64 = (size as u64 / 16 + 1) * 16;
        if base as u64 + chunk > 0xffff_fff0 {
            return Err(MemError::OutOfMemory);
        }
        let new_len: usize = (base as u64 + chunk) as usize;
        self.bytes.resize(new_len, 0u8);
        let record = AllocRecord { base: base as u32, size, live: true };
        self.records.push(record);
        let p: MutVoidPtr = Ptr::from_bits(base as u32);
        proof {
            let n = old(self).records@.len() as int;
            assert(self.records@[n] == record);
            assert forall|off: int| 0 <= off < size implies self.accessible(
                #[trigger] (p@ + off),
                1,
            ) by {
                assert(record_covers(self.records()[n], p@ + off, 1));
            }
            assert(!self.accessible(p@ + size, 1)) by {
                assert forall|i: int| 0 <= i < self.records().len() implies !record_covers(
                    #[trigger] self.records()[i],
                    p@ + size,
                    1,
                ) by {
                    if i < n {
                        assert(self.records()[i] == old(self).records@[i]);
                    }
                }
            }
            assert(self.bytes@.subrange(0, base as int) =~= old(self).bytes@);
        }
        Ok(p)
    }

    /// Marks the allocation that starts at `ptr` as freed. Its bytes stay in
    /// place and are no longer accessible.
    pub fn free(&mut self, ptr: MutVoidPtr) -> (res: Result<(), MemError>)
        requires
            old(self).wf(),
        ensures
            final(self).wf(),
            res == old(self).free_result(ptr@),
            final(self).contents() == old(self).contents(),
            res is Ok ==> final(self).records() == old(self).records_after_free(ptr@),
            res is Err ==> *final(self) == *old(self),
    {
        let mut i: usize = 0;
        while i < self.records.len()
            invariant
                self.wf(),
                *self == *old(self),
                i <= self.records@.len(),
                forall|j: int| 0 <= j < i ==> (#[trigger] self.records@[j]).base != ptr@,
            decreases self.records@.len() - i,
        {
            let r = self.records[i];
            if r.base == ptr.addr {
                proof {
                    assert forall|j: int|
                        0 <= j < self.records().len() && (#[trigger] self.records()[j]).base
                            == ptr@ implies j == i by {
                        if j < i {
                        } else if j > i {
                        }
                    }
                }
                if !r.live {
                    return Err(MemError::DoubleFree);
                }
                self.records.set(i, AllocRecord { base: r.base, size: r.size, live: false });
                assert(self.records@ =~= old(self).records_after_free(ptr@));
                return Ok(());
            }
            i += 1;
        }
        Err(MemError::InvalidFree)
    }

    /// The `len` bytes at `ptr`.
    pub fn bytes_at<const MUT: bool>(&self, ptr: Ptr<u8, MUT>, len: GuestUSize) -> (res: Result<
        &[u8],
        MemError,
    >)
        requires
            self.wf(),
        ensures
            match res {
                Ok(s) => self.accessible(ptr@, len as int) && s@ == self.contents().subrange(
                    ptr@,
                    ptr@ + len,
                ),
                Err(e) => self.access_result(ptr@, len as int) == Err::<(), MemError>(e),
            },
    {
        match self.find(ptr.addr, len as usize) {
            Ok(_) => {
                let start: usize = ptr.addr as usize;
                Ok(vstd::slice::slice_subrange(self.bytes.as_slice(), start, start + len as usize))
            },
            Err(e) => Err(e),
        }
    }

    /// Copies `data` to the bytes at `ptr`.
    pub fn write_bytes(&mut self, ptr: MutPtr<u8>, data: &[u8]) -> (res: Result<(), MemError>)
        requires
            old(self).wf(),
        ensures
            final(self).wf(),
            final(self).records() == old(self).records(),
            res == old(self).access_result(ptr@, data@.len() as int),
            res is Ok ==> final(self).contents() == overwrite(old(self).contents(), ptr@, data@),
            res is Err ==> *final(self) == *old(self),
    {
        match self.find(ptr.addr, data.len()) {
            Ok(_) => {
                let start: usize = ptr.addr as usize;
                let mut k: usize = 0;
                while k < data.len()
                    invariant
                        k <= data@.len(),
                        start + data@.len() < self.bytes.len(),
                        self.bytes@.len() == old(self).bytes@.len(),
                        self.records == old(self).records,
                        forall|j: int|
                            0 <= j < self.bytes@.len() ==> #[trigger] self.bytes@[j] == if start
                                <= j < start + k {
                                data@[j - start]
                            } else {
                                old(self).bytes@[j]
                            },
                    decreases data@.len() - k,
                {
                    self.bytes.set(start + k, data[k]);
                    k += 1;
                }
                assert(self.bytes@ =~= overwrite(old(self).bytes@, ptr@, data@));
                Ok(())
            },
            Err(e) => Err(e),
        }
    }

    /// Reads the value that `ptr` points at.
    pub fn read<T: SafeRead, const MUT: bool>(&self, ptr: Ptr<T, MUT>) -> (res: Result<T, MemError>)
        requires
            self.wf(),
        ensures
            match res {
                Ok(value) => self.accessible(ptr@, T::guest_size() as int) && value
                    == T::from_guest(
                    self.contents().subrange(ptr@, ptr@ + T::guest_size()),
                ),
                Err(e) => self.access_result(ptr@, T::guest_size() as int) == Err::<(), MemError>(e),
            },
    {
        let size = T::size();
        match self.find(ptr.addr, size as usize) {
            Ok(_) => {
                let start: usize = ptr.addr as usize;
                let bytes = vstd::slice::slice_subrange(
                    self.bytes.as_slice(),
                    start,
                    start + size as usize,
                );
                Ok(T::decode(bytes))
            },
            Err(e) => Err(e),
        }
    }

    /// Writes `value` where `ptr` points.
    pub fn write<T: SafeWrite>(&mut self, ptr: MutPtr<T>, value: T) -> (res: Result<(), MemError>)
        requires
            old(self).wf(),
        ensures
            final(self).wf(),
            final(self).records() == old(self).records(),
            res == old(self).access_result(ptr@, T::guest_size() as int),
            res is Ok ==> final(self).contents() == overwrite(
                old(self).contents(),
                ptr@,
                value.to_guest(),
            ),
            res is Err ==> *final(self) == *old(self),
    {
        let bytes = value.encode();
        self.write_bytes(ptr.cast(), bytes.as_slice())
    }

    /// Whether the string that starts at `addr` has `n` bytes before its NUL,
    /// all of them and the NUL inside one live allocation.
    pub open spec fn is_cstr_len(&self, addr: int, n: int) -> bool {
        &&& n >= 0
        &&& self.accessible(addr, n + 1)
        &&& self.contents()[addr + n] == 0
        &&& forall|k: int| addr <= k < addr + n ==> #[trigger] self.contents()[k] != 0
    }

    /// The NUL-terminated string at `addr`, without the NUL: the error of an
    /// access to its first byte, else the bytes up to the first NUL, else, where
    /// the allocation ends before a NUL, an out-of-bounds error.
    pub open spec fn cstr_result(&self, addr: int) -> Result<Seq<u8>, MemError> {
        match self.access_result(addr, 1) {
            Err(e) => Err(e),
            Ok(_) => if exists|n: int| self.is_cstr_len(addr, n) {
                Ok(self.contents().subrange(addr, addr + choose|n: int| self.is_cstr_len(addr, n)))
            } else {
                Err(MemError::OutOfBounds)
            },
        }
    }

    /// A string lies inside the address space.
    pub proof fn lemma_cstr_result(&self, addr: int)
        requires
            self.wf(),
        ensures
            self.cstr_result(addr) matches Ok(s) ==> s.len() < self.brk() && self.brk()
                <= ADDRESS_LIMIT,
    {
        if self.cstr_result(addr) is Ok {
            let n = choose|n: int| self.is_cstr_len(addr, n);
            self.lemma_ranges(addr, n + 1);
        }
    }

    /// A string has one length.
    pub proof fn lemma_cstr_len_unique(&self, addr: int, n: int, m: int)
        requires
            self.is_cstr_len(addr, n),
            self.is_cstr_len(addr, m),
        ensures
            n == m,
    {
        if n < m {
            assert(self.contents()[addr + n] != 0);
        } else if m < n {
            assert(self.contents()[addr + m] != 0);
        }
    }

    /// The bytes of the NUL-terminated string at `ptr`, without the NUL. The
    /// terminator has to lie in the same allocation as the first byte.
    pub fn cstr_at<const MUT: bool>(&self, ptr: Ptr<u8, MUT>) -> (res: Result<&[u8], MemError>)
        requires
            self.wf(),
        ensures
            match res {
                Ok(s) => self.cstr_result(ptr@) == Ok::<Seq<u8>, MemError>(s@),
                Err(e) => self.cstr_result(ptr@) == Err::<Seq<u8>, MemError>(e),
            },
    {
        match self.find(ptr.addr, 1) {
            Ok(i) => {
                let r = self.records[i];
                let start: usize = ptr.addr as usize;
                let end: usize = r.base as usize + r.size as usize;
                let mut n: usize = 0;
                while start + n < end && self.bytes[start + n] != 0
                    invariant
                        self.wf(),
                        i < self.records@.len(),
                        r == self.records@[i as int],
                        r.live,
                        r.base <= start < end,
                        end == r.base + r.size,
                        end < self.bytes@.len(),
                        start + n <= end,
                        forall|k: int| start <= k < start + n ==> self.bytes@[k] != 0,
                    decreases end - start - n,
                {
                    n += 1;
                }
                if start + n < end {
                    proof {
                        assert(record_covers(self.records()[i as int], ptr@, n + 1));
                        assert(self.is_cstr_len(ptr@, n as int));
                        let found = choose|m: int| self.is_cstr_len(ptr@, m);
                        self.lemma_cstr_len_unique(ptr@, n as int, found);
                    }
                    Ok(vstd::slice::slice_subrange(self.bytes.as_slice(), start, start + n))
                } else {
                    proof {
                        assert forall|m: int| !self.is_cstr_len(ptr@, m) by {
                            if self.is_cstr_len(ptr@, m) {
                                let j = choose|j: int|
                                    0 <= j < self.records().len() && (
                                    #[trigger] self.records()[j]).live && record_covers(
                                        self.records()[j],
                                        ptr@,
                                        m + 1,
                                    );
                                if j < i {
                                } else if j > i {
                                }
                                assert(self.contents()[ptr@ + m] != 0);
                            }
                        }
                    }
                    Err(MemError::OutOfBounds)
                }
            },
            Err(e) => Err(e),
        }
    }

    /// Allocates room for `value` and writes it there.
    pub fn alloc_and_write<T: SafeWrite>(&mut self, value: T) -> (res: Result<MutPtr<T>, MemError>)
        requires
            old(self).wf(),
        ensures
            final(self).wf(),
            match res {
                Ok(p) => {
                    &&& T::guest_size() > 0
                    &&& old(self).fits(T::guest_size() as int)
                    &&& p@ == old(self).brk()
                    &&& final(self).records() == old(self).records().push(
                        AllocRecord { base: p.addr, size: T::guest_size() as u32, live: true },
                    )
                    &&& final(self).brk() == old(self).brk() + chunk_size(T::guest_size() as int)
                    &&& final(self).contents().subrange(0, old(self).brk()) == old(self).contents()
                    &&& final(self).contents().subrange(p@, p@ + T::guest_size())
                        == value.to_guest()
                },
                Err(e) => {
                    &&& *final(self) == *old(self)
                    &&& e == MemError::ZeroSize <==> T::guest_size() == 0
                    &&& e == MemError::OutOfMemory <==> T::guest_size() > 0 && !old(self).fits(
                        T::guest_size() as int,
                    )
                    &&& e == MemError::ZeroSize || e == MemError::OutOfMemory
                },
            },
    {
        let size = T::size();
        match self.allocate(size) {
            Ok(p) => {
                let target: MutPtr<T> = p.cast();
                let ghost mid = *self;
                proof {
                    assert(record_covers(
                        self.records()[old(self).records().len() as int],
                        target@,
                        size as int,
                    ));
                }
                let written = self.write(target, value);
                proof {
                    assert(written is Ok);
                    value.lemma_round_trip();
                    assert(self.contents().subrange(0, old(self).brk()) =~= mid.contents().subrange(
                        0,
                        old(self).brk(),
                    ));
                    assert(self.contents().subrange(target@, target@ + T::guest_size())
                        =~= value.to_guest());
                }
                Ok(target)
            },
            Err(e) => Err(e),
        }
    }
}


/// Bytes that were written are the bytes read back, and no other byte
/// changes.
pub proof fn lemma_overwrite(contents: Seq<u8>, at: int, data: Seq<u8>)
    requires
        0 <= at,
        at + data.len() <= contents.len(),
    ensures
        overwrite(contents, at, data).len() == contents.len(),
        overwrite(contents, at, data).subrange(at, at + data.len()) == data,
        forall|k: int|
            0 <= k < contents.len() && !(at <= k < at + data.len()) ==> #[trigger] overwrite(
                contents,
                at,
                data,
            )[k] == contents[k],
{
    assert(overwrite(contents, at, data).subrange(at, at + data.len()) =~= data);
}

/// Every byte of a fresh allocation of `size` bytes can be accessed, and the
/// byte at offset `size` cannot: an access there is out of bounds.
pub proof fn lemma_allocation_extent(before: Mem, after: Mem, size: u32, p: MutVoidPtr)
    requires
        before.wf(),
        after.wf(),
        size > 0,
        p@ == before.brk(),
        after.records() == before.records().push(AllocRecord { base: p.addr, size, live: true }),
    ensures
        forall|off: int|
            0 <= off < size ==> #[trigger] after.access_result(p@ + off, 1) == Ok::<(), MemError>(
                (),
            ),
        after.access_result(p@ + size, 1) == Err::<(), MemError>(MemError::OutOfBounds),
{
    let n = before.records().len() as int;
    assert(after.records()[n] == AllocRecord { base: p.addr, size, live: true });
    assert forall|off: int| 0 <= off < size implies #[trigger] after.access_result(p@ + off, 1)
        == Ok::<(), MemError>(()) by {
        assert(record_covers(after.records()[n], p@ + off, 1));
    }
    assert forall|i: int| 0 <= i < after.records().len() implies !record_covers(
        #[trigger] after.records()[i],
        p@ + size,
        1,
    ) by {
        if i < n {
            assert(after.records()[i].base + after.records()[i].size < after.records()[n].base);
        }
    }
}

} // verus!
