//! The symbol resolver: binds the names that a guest binary imports to host
//! functions.
//!
//! Host functions are offered in export tables, which are gathered into one
//! registry at startup. A name may be exported only once. Each export gets a
//! trampoline in guest memory: a supervisor call that carries the export's
//! number, followed by a return. Linking a binary writes, for each import that
//! an export answers, the trampoline's address into the import's slot.

use crate::abi::GuestFunction;
use crate::bytes::bytes_eq;
use crate::mem::{overwrite, push_le_u32, record_covers, u32_le, AllocRecord, Mem, MemError, MutPtr, Ptr};
use vstd::prelude::*;

verus! {

/// A host function, named by its number in the embedder's table.
#[derive(Clone, Copy, Debug, PartialEq, Eq, Structural)]
pub struct HostFunction {
    pub number: u32,
}

/// One entry of an export table.
pub struct FunctionExport {
    pub name: Vec<u8>,
    /// Number of fixed arguments that the function takes.
    pub arity: u8,
    pub function: HostFunction,
}

/// One entry of a binary's import list.
pub struct Import {
    pub name: Vec<u8>,
    /// Where the binary expects the address of the imported function.
    pub slot: MutPtr<u32>,
}

/// Why the resolver refused an operation.
#[derive(Clone, Copy, Debug, PartialEq, Eq, Structural)]
pub enum DyldError {
    /// The entry at this index of the offered table bears a name that is
    /// already exported, by the registry or earlier in the same table.
    DuplicateExport(usize),
    /// The registry cannot number any more exports.
    TooManyExports,
    /// Guest memory refused the operation.
    Mem(MemError),
}

/// Number of bytes of a trampoline.
pub const TRAMPOLINE_SIZE: u32 = 8;

/// Exports are numbered below this bound: the number has to fit the
/// supervisor call's immediate.
pub const MAX_EXPORTS: u32 = 0x100_0000;

/// The instruction that returns to the caller.
pub const RETURN_INSTRUCTION: u32 = 0xe12f_ff1e;

/// The supervisor call that carries `number`.
pub open spec fn svc_instruction(number: int) -> u32 {
    (0xef00_0000 + number) as u32
}

/// The code of the trampoline of export `number`.
pub open spec fn trampoline_code(number: int) -> Seq<u8> {
    u32_le(svc_instruction(number)) + u32_le(RETURN_INSTRUCTION)
}

/// The export that answers a name, by its number.
pub open spec fn binding(names: Seq<Seq<u8>>, name: Seq<u8>) -> Option<int> {
    if names.contains(name) {
        Some(names.index_of(name))
    } else {
        None
    }
}

/// Whether entry `k` of an offered table bears a name that is taken.
pub open spec fn is_duplicate(names: Seq<Seq<u8>>, offered: Seq<Seq<u8>>, k: int) -> bool {
    (names + offered.subrange(0, k)).contains(offered[k])
}

/// Whether `k` is the first entry of an offered table whose name is taken.
pub open spec fn is_first_duplicate(names: Seq<Seq<u8>>, offered: Seq<Seq<u8>>, k: int) -> bool {
    &&& 0 <= k < offered.len()
    &&& is_duplicate(names, offered, k)
    &&& forall|j: int| 0 <= j < k ==> !is_duplicate(names, offered, j)
}

/// The first entry of an offered table whose name is taken.
pub open spec fn first_duplicate(names: Seq<Seq<u8>>, offered: Seq<Seq<u8>>) -> Option<int> {
    if exists|k: int| is_first_duplicate(names, offered, k) {
        Some(choose|k: int| is_first_duplicate(names, offered, k))
    } else {
        None
    }
}

/// The names of an import list.
pub open spec fn import_names(imports: Seq<Import>) -> Seq<Seq<u8>> {
    Seq::new(imports.len(), |i: int| imports[i].name@)
}

/// The names of an export table.
pub open spec fn export_names(table: Seq<FunctionExport>) -> Seq<Seq<u8>> {
    Seq::new(table.len(), |i: int| table[i].name@)
}

/// The functions of an export table.
pub open spec fn export_functions(table: Seq<FunctionExport>) -> Seq<HostFunction> {
    Seq::new(table.len(), |i: int| table[i].function)
}

/// The positions in an import list of the imports that no export answers,
/// in ascending order.
pub open spec fn unresolved_of(names: Seq<Seq<u8>>, imports: Seq<Import>) -> Seq<usize>
    decreases imports.len(),
{
    if imports.len() == 0 {
        Seq::empty()
    } else {
        let before = unresolved_of(names, imports.drop_last());
        if binding(names, imports.last().name@) is None {
            before.push((imports.len() - 1) as usize)
        } else {
            before
        }
    }
}

/// What checking the slots of an import list is answered with: the error of
/// the first import that an export answers and whose slot cannot be written.
pub open spec fn slots_result(mem: &Mem, names: Seq<Seq<u8>>, imports: Seq<Import>) -> Result<
    (),
    MemError,
>
    decreases imports.len(),
{
    if imports.len() == 0 {
        Ok(())
    } else {
        match slots_result(mem, names, imports.drop_last()) {
            Err(e) => Err(e),
            Ok(_) => if binding(names, imports.last().name@) is Some {
                mem.access_result(imports.last().slot@, 4)
            } else {
                Ok(())
            },
        }
    }
}

/// Guest memory after the slots of an import list have been written, first
/// import first.
pub open spec fn patched(
    contents: Seq<u8>,
    names: Seq<Seq<u8>>,
    trampolines: Seq<u32>,
    imports: Seq<Import>,
) -> Seq<u8>
    decreases imports.len(),
{
    if imports.len() == 0 {
        contents
    } else {
        let before = patched(contents, names, trampolines, imports.drop_last());
        match binding(names, imports.last().name@) {
            Some(k) => overwrite(before, imports.last().slot@, u32_le(trampolines[k])),
            None => before,
        }
    }
}

/// The registry of exports, with the trampoline of each.
pub struct Dyld {
    exports: Vec<FunctionExport>,
    trampolines: Vec<u32>,
}

impl Dyld {
    /// The exported names; an export's number is its index here.
    pub closed spec fn names(&self) -> Seq<Seq<u8>> {
        export_names(self.exports@)
    }

    /// The exported functions, by number.
    pub closed spec fn functions(&self) -> Seq<HostFunction> {
        export_functions(self.exports@)
    }

    /// The addresses of the trampolines, by number.
    pub closed spec fn trampolines(&self) -> Seq<u32> {
        self.trampolines@
    }

    /// Each export has a trampoline, no name is exported twice, and every
    /// export's number fits a supervisor call.
    pub closed spec fn wf(&self) -> bool {
        &&& self.exports@.len() == self.trampolines@.len()
        &&& self.exports@.len() <= MAX_EXPORTS
        &&& forall|i: int, j: int|
            0 <= i < j < self.exports@.len() ==> (#[trigger] self.exports@[i]).name@
                != (#[trigger] self.exports@[j]).name@
    }

    /// What offering an export table is answered with.
    pub open spec fn register_result(&self, mem: &Mem, table: Seq<FunctionExport>) -> Result<
        (),
        DyldError,
    > {
        let offered = export_names(table);
        if first_duplicate(self.names(), offered) is Some {
            Err(DyldError::DuplicateExport(first_duplicate(self.names(), offered).unwrap() as usize))
        } else if table.len() == 0 {
            Ok(())
        } else if self.names().len() + table.len() > MAX_EXPORTS {
            Err(DyldError::TooManyExports)
        } else if !mem.fits(TRAMPOLINE_SIZE * table.len()) {
            Err(DyldError::Mem(MemError::OutOfMemory))
        } else {
            Ok(())
        }
    }

    /// A registry without exports.
    pub fn new() -> (dyld: Dyld)
        ensures
            dyld.wf(),
            dyld.names().len() == 0,
            dyld.functions().len() == 0,
            dyld.trampolines().len() == 0,
    {
        Dyld { exports: Vec::new(), trampolines: Vec::new() }
    }

    /// The number of the export that answers a name.
    pub fn lookup(&self, name: &[u8]) -> (res: Option<usize>)
        requires
            self.wf(),
        ensures
            res == match binding(self.names(), name@) {
                Some(k) => Some(k as usize),
                None => None,
            },
            res matches Some(k) ==> k < self.names().len() && self.names()[k as int] == name@,
    {
        let mut i: usize = 0;
        while i < self.exports.len()
            invariant
                self.wf(),
                i <= self.exports@.len(),
                forall|k: int| 0 <= k < i ==> (#[trigger] self.names()[k]) != name@,
            decreases self.exports@.len() - i,
        {
            if bytes_eq(self.exports[i].name.as_slice(), name) {
                proof {
                    self.lemma_binding(name@, i as int);
                }
                return Some(i);
            }
            i += 1;
        }
        None
    }

    /// A name is answered by the one export that bears it.
    pub proof fn lemma_binding(&self, name: Seq<u8>, k: int)
        requires
            self.wf(),
            0 <= k < self.names().len(),
            self.names()[k] == name,
        ensures
            binding(self.names(), name) == Some(k),
    {
        let names = self.names();
        assert(names.contains(name));
        let found = names.index_of(name);
        assert(self.exports@[found].name@ == names[found]);
        assert(self.exports@[k].name@ == names[k]);
        if found < k {
        } else if found > k {
        }
    }

    /// The host function that answers a name.
    pub fn lookup_function(&self, name: &[u8]) -> (res: Option<HostFunction>)
        requires
            self.wf(),
        ensures
            res == match binding(self.names(), name@) {
                Some(k) => Some(self.functions()[k]),
                None => None,
            },
    {
        match self.lookup(name) {
            Some(k) => Some(self.exports[k].function),
            None => None,
        }
    }

    /// The host function that a supervisor call with this number stands for.
    pub fn function_of_call(&self, number: u32) -> (res: Option<HostFunction>)
        ensures
            res == if number < self.functions().len() {
                Some(self.functions()[number as int])
            } else {
                None
            },
    {
        if (number as usize) < self.exports.len() {
            Some(self.exports[number as usize].function)
        } else {
            None
        }
    }

    /// The trampoline of the export that answers a name.
    pub fn trampoline_of(&self, name: &[u8]) -> (res: Option<GuestFunction>)
        requires
            self.wf(),
        ensures
            res == match binding(self.names(), name@) {
                Some(k) => Some(GuestFunction { addr: self.trampolines()[k] }),
                None => None,
            },
    {
        match self.lookup(name) {
            Some(k) => Some(GuestFunction::from_addr_with_thumb_bit(self.trampolines[k])),
            None => None,
        }
    }
}


impl Dyld {
    /// Whether entry `k` of an offered table bears a name that is taken.
    fn name_taken(&self, table: &Vec<FunctionExport>, k: usize) -> (res: bool)
        requires
            self.wf(),
            k < table@.len(),
        ensures
            res == is_duplicate(self.names(), export_names(table@), k as int),
    {
        let ghost offered = export_names(table@);
        let ghost all = self.names() + offered.subrange(0, k as int);
        if self.lookup(table[k].name.as_slice()).is_some() {
            proof {
                let found = self.names().index_of(offered[k as int]);
                assert(all[found] == offered[k as int]);
            }
            return true;
        }
        let mut j: usize = 0;
        while j < k
            invariant
                j <= k < table@.len(),
                offered == export_names(table@),
                all == self.names() + offered.subrange(0, k as int),
                forall|i: int| 0 <= i < j ==> #[trigger] offered[i] != offered[k as int],
            decreases k - j,
        {
            if bytes_eq(table[j].name.as_slice(), table[k].name.as_slice()) {
                proof {
                    assert(offered[j as int] == offered[k as int]);
                    assert(all[self.names().len() + j] == offered[k as int]);
                }
                return true;
            }
            j += 1;
        }
        proof {
            if all.contains(offered[k as int]) {
                let i = choose|i: int| 0 <= i < all.len() && all[i] == offered[k as int];
                if i < self.names().len() {
                    assert(self.names()[i] == offered[k as int]);
                } else {
                    assert(offered[i - self.names().len()] == offered[k as int]);
                }
            }
        }
        false
    }

    /// Adds an export table to the registry and gives each of its entries a
    /// trampoline in guest memory. Nothing is added when one of the names is
    /// already taken.
    pub fn register_exports(&mut self, mem: &mut Mem, table: Vec<FunctionExport>) -> (res: Result<
        (),
        DyldError,
    >)
        requires
            old(self).wf(),
            old(mem).wf(),
        ensures
            final(self).wf(),
            final(mem).wf(),
            res == old(self).register_result(old(mem), table@),
            match res {
                Ok(_) => {
                    &&& final(self).names() == old(self).names() + export_names(table@)
                    &&& final(self).functions() == old(self).functions() + export_functions(table@)
                    &&& final(self).trampolines() == old(self).trampolines() + Seq::new(
                        table@.len(),
                        |i: int| (old(mem).brk() + TRAMPOLINE_SIZE * i) as u32,
                    )
                    &&& table@.len() == 0 ==> *final(mem) == *old(mem)
                    &&& table@.len() > 0 ==> {
                        &&& final(mem).records() == old(mem).records().push(
                            AllocRecord {
                                base: old(mem).brk() as u32,
                                size: (TRAMPOLINE_SIZE * table@.len()) as u32,
                                live: true,
                            },
                        )
                        &&& final(mem).contents().subrange(0, old(mem).brk()) == old(mem).contents()
                        &&& forall|i: int|
                            0 <= i < table@.len() ==> #[trigger] final(mem).contents().subrange(
                                old(mem).brk() + TRAMPOLINE_SIZE * i,
                                old(mem).brk() + TRAMPOLINE_SIZE * i + TRAMPOLINE_SIZE,
                            ) == trampoline_code(old(self).names().len() + i)
                    }
                },
                Err(_) => {
                    &&& final(self).names() == old(self).names()
                    &&& final(self).functions() == old(self).functions()
                    &&& final(self).trampolines() == old(self).trampolines()
                    &&& *final(mem) == *old(mem)
                },
            },
    {
        let ghost added = table@;
        let ghost offered = export_names(table@);
        let ghost names = self.names();
        let mut entries = table;
        let n = entries.len();
        let mut k: usize = 0;
        while k < n
            invariant
                self.wf(),
                mem.wf(),
                *self == *old(self),
                *mem == *old(mem),
                entries@ == added,
                added == table@,
                n == added.len(),
                k <= n,
                offered == export_names(added),
                names == self.names(),
                forall|j: int| 0 <= j < k ==> !is_duplicate(names, offered, j),
            decreases n - k,
        {
            if self.name_taken(&entries, k) {
                proof {
                    assert(is_duplicate(names, offered, k as int));
                    assert(is_first_duplicate(names, offered, k as int));
                    let c = choose|c: int| is_first_duplicate(names, offered, c);
                    assert(is_first_duplicate(names, offered, c));
                    if c < k {
                        assert(is_duplicate(names, offered, c));
                        assert(!is_duplicate(names, offered, c));
                    } else if c > k {
                        assert(!is_duplicate(names, offered, k as int));
                    }
                    assert(c == k);
                    assert(first_duplicate(names, offered) == Some(k as int));
                    assert(names == old(self).names());
                    assert(offered == export_names(table@));
                }
                return Err(DyldError::DuplicateExport(k));
            }
            k += 1;
        }
        assert(first_duplicate(names, offered) is None) by {
            if exists|c: int| is_first_duplicate(names, offered, c) {
                let c = choose|c: int| is_first_duplicate(names, offered, c);
            }
        }
        if n == 0 {
            assert(self.names() + offered =~= self.names());
            assert(self.functions() + export_functions(added) =~= self.functions());
            assert(self.trampolines() + Seq::new(
                added.len(),
                |i: int| (old(mem).brk() + TRAMPOLINE_SIZE * i) as u32,
            ) =~= self.trampolines());
            return Ok(());
        }
        let first_number = self.exports.len();
        if n > 0x100_0000 || first_number + n > 0x100_0000 {
            return Err(DyldError::TooManyExports);
        }
        let size: u32 = (8 * n) as u32;
        let block = match mem.allocate(size) {
            Ok(block) => block,
            Err(e) => {
                return Err(DyldError::Mem(e));
            },
        };
        let ghost brk = old(mem).brk();
        let ghost mid = *mem;
        let mut code: Vec<u8> = Vec::new();
        let mut i: usize = 0;
        while i < n
            invariant
                i <= n,
                first_number + n <= 0x100_0000,
                code@.len() == 8 * i,
                forall|j: int|
                    0 <= j < i ==> #[trigger] code@.subrange(8 * j, 8 * j + 8) == trampoline_code(
                        first_number + j,
                    ),
            decreases n - i,
        {
            let ghost before = code@;
            push_le_u32(&mut code, 0xef00_0000u32 + (first_number + i) as u32);
            push_le_u32(&mut code, 0xe12f_ff1eu32);
            proof {
                assert(code@.subrange(8 * i, 8 * i + 8) =~= trampoline_code(first_number + i));
                assert forall|j: int| 0 <= j < i implies #[trigger] code@.subrange(8 * j, 8 * j + 8)
                    == trampoline_code(first_number + j) by {
                    assert(code@.subrange(8 * j, 8 * j + 8) =~= before.subrange(8 * j, 8 * j + 8));
                }
            }
            i += 1;
        }
        proof {
            assert(record_covers(mem.records()[old(mem).records().len() as int], block@, 8 * n));
        }
        let written = mem.write_bytes(block.cast(), code.as_slice());
        assert(written is Ok);
        let base: u32 = block.to_bits();
        let mut i: usize = 0;
        while i < n
            invariant
                i <= n <= 0x100_0000,
                base + 8 * n <= u32::MAX,
                base == brk,
                self.exports == old(self).exports,
                self.trampolines@ == old(self).trampolines@ + Seq::new(
                    i as nat,
                    |j: int| (brk + TRAMPOLINE_SIZE * j) as u32,
                ),
            decreases n - i,
        {
            self.trampolines.push(base + 8 * (i as u32));
            assert(self.trampolines@ =~= old(self).trampolines@ + Seq::new(
                (i + 1) as nat,
                |j: int| (brk + TRAMPOLINE_SIZE * j) as u32,
            ));
            i += 1;
        }
        self.exports.append(&mut entries);
        proof {
            assert(self.names() =~= names + offered);
            assert(self.functions() =~= old(self).functions() + export_functions(added));
            assert(mem.contents().subrange(0, brk) =~= old(mem).contents()) by {
                assert(mid.contents().subrange(0, brk) == old(mem).contents());
            }
            assert forall|i: int| 0 <= i < n implies #[trigger] mem.contents().subrange(
                brk + TRAMPOLINE_SIZE * i,
                brk + TRAMPOLINE_SIZE * i + TRAMPOLINE_SIZE,
            ) == trampoline_code(old(self).names().len() + i) by {
                assert(mem.contents().subrange(brk + 8 * i, brk + 8 * i + 8) =~= code@.subrange(
                    8 * i,
                    8 * i + 8,
                ));
            }
            assert forall|i: int, j: int| 0 <= i < j < self.exports@.len() implies (
            #[trigger] self.exports@[i]).name@ != (#[trigger] self.exports@[j]).name@ by {
                let m = names.len() as int;
                assert(self.names()[i] == self.exports@[i].name@);
                assert(self.names()[j] == self.exports@[j].name@);
                if j >= m {
                    assert(!is_duplicate(names, offered, j - m));
                    assert((names + offered.subrange(0, j - m))[i] == self.names()[i]);
                } else {
                    assert(old(self).exports@[i].name@ == names[i]);
                    assert(old(self).exports@[j].name@ == names[j]);
                }
            }
        }
        Ok(())
    }

    /// Links a binary: writes the trampoline's address into the slot of each
    /// import that an export answers, first import first, and reports the
    /// positions of the imports that none answers. Nothing is written unless
    /// every slot that is to be written can be.
    pub fn link(&self, mem: &mut Mem, imports: &Vec<Import>) -> (res: Result<Vec<usize>, MemError>)
        requires
            self.wf(),
            old(mem).wf(),
        ensures
            final(mem).wf(),
            final(mem).records() == old(mem).records(),
            match res {
                Ok(unresolved) => {
                    &&& slots_result(old(mem), self.names(), imports@) is Ok
                    &&& unresolved@ == unresolved_of(self.names(), imports@)
                    &&& final(mem).contents() == patched(
                        old(mem).contents(),
                        self.names(),
                        self.trampolines(),
                        imports@,
                    )
                },
                Err(e) => {
                    &&& slots_result(old(mem), self.names(), imports@) == Err::<(), MemError>(e)
                    &&& final(mem).contents() == old(mem).contents()
                },
            },
    {
        let ghost names = self.names();
        let mut unresolved: Vec<usize> = Vec::new();
        let mut i: usize = 0;
        assert(imports@.subrange(0, 0) =~= Seq::<Import>::empty());
        while i < imports.len()
            invariant
                self.wf(),
                mem.wf(),
                *mem == *old(mem),
                names == self.names(),
                i <= imports@.len(),
                slots_result(mem, names, imports@.subrange(0, i as int)) is Ok,
                unresolved@ == unresolved_of(names, imports@.subrange(0, i as int)),
                forall|j: int|
                    0 <= j < i && binding(names, (#[trigger] imports@[j]).name@) is Some
                        ==> mem.access_result(imports@[j].slot@, 4) is Ok,
            decreases imports@.len() - i,
        {
            let ghost next = imports@.subrange(0, i + 1);
            proof {
                assert(next.drop_last() =~= imports@.subrange(0, i as int));
                assert(next.last() == imports@[i as int]);
            }
            match self.lookup(imports[i].name.as_slice()) {
                Some(_) => {
                    match mem.check_access(imports[i].slot.to_bits(), 4) {
                        Ok(_) => {},
                        Err(e) => {
                            proof {
                                lemma_slots_error_persists(mem, names, imports@, i + 1);
                            }
                            return Err(e);
                        },
                    }
                },
                None => {
                    unresolved.push(i);
                },
            }
            i += 1;
        }
        assert(imports@.subrange(0, imports@.len() as int) =~= imports@);
        let mut i: usize = 0;
        while i < imports.len()
            invariant
                self.wf(),
                mem.wf(),
                mem.records() == old(mem).records(),
                names == self.names(),
                i <= imports@.len(),
                mem.contents() == patched(
                    old(mem).contents(),
                    names,
                    self.trampolines(),
                    imports@.subrange(0, i as int),
                ),
                forall|j: int|
                    0 <= j < imports@.len() && binding(names, (#[trigger] imports@[j]).name@)
                        is Some ==> old(mem).access_result(imports@[j].slot@, 4) is Ok,
            decreases imports@.len() - i,
        {
            let ghost next = imports@.subrange(0, i + 1);
            proof {
                assert(next.drop_last() =~= imports@.subrange(0, i as int));
                assert(next.last() == imports@[i as int]);
            }
            match self.lookup(imports[i].name.as_slice()) {
                Some(k) => {
                    let written = mem.write(imports[i].slot, self.trampolines[k]);
                    assert(written is Ok);
                },
                None => {},
            }
            i += 1;
        }
        Ok(unresolved)
    }
}

/// Once a slot of a part of an import list cannot be written, the check of
/// the whole list is answered with that slot's error.
pub proof fn lemma_slots_error_persists(
    mem: &Mem,
    names: Seq<Seq<u8>>,
    imports: Seq<Import>,
    i: int,
)
    requires
        0 <= i <= imports.len(),
        slots_result(mem, names, imports.subrange(0, i)) is Err,
    ensures
        slots_result(mem, names, imports) == slots_result(mem, names, imports.subrange(0, i)),
    decreases imports.len() - i,
{
    if i == imports.len() {
        assert(imports.subrange(0, i) =~= imports);
    } else {
        let next = imports.subrange(0, i + 1);
        assert(next.drop_last() =~= imports.subrange(0, i));
        lemma_slots_error_persists(mem, names, imports, i + 1);
    }
}

/// Whether some import of the list that an export answers has byte `k` in
/// its slot.
pub open spec fn slot_byte(names: Seq<Seq<u8>>, imports: Seq<Import>, k: int) -> bool {
    exists|i: int|
        0 <= i < imports.len() && binding(names, (#[trigger] imports[i]).name@) is Some
            && imports[i].slot@ <= k < imports[i].slot@ + 4
}

/// What linking writes into the slots does not depend on what they held: two
/// memories agree after linking wherever they agreed before and wherever a
/// slot lies, and outside the slots each holds what it held.
pub proof fn lemma_patched_agree(
    a: Seq<u8>,
    b: Seq<u8>,
    names: Seq<Seq<u8>>,
    trampolines: Seq<u32>,
    imports: Seq<Import>,
)
    requires
        a.len() == b.len(),
    ensures
        patched(a, names, trampolines, imports).len() == a.len(),
        patched(b, names, trampolines, imports).len() == a.len(),
        forall|k: int|
            0 <= k < a.len() && (a[k] == b[k] || slot_byte(names, imports, k)) ==> #[trigger] patched(
                a,
                names,
                trampolines,
                imports,
            )[k] == patched(b, names, trampolines, imports)[k],
        forall|k: int|
            0 <= k < a.len() && !slot_byte(names, imports, k) ==> #[trigger] patched(
                a,
                names,
                trampolines,
                imports,
            )[k] == a[k],
    decreases imports.len(),
{
    if imports.len() > 0 {
        let rest = imports.drop_last();
        let last = imports.last();
        lemma_patched_agree(a, b, names, trampolines, rest);
        assert forall|k: int| slot_byte(names, rest, k) implies slot_byte(names, imports, k) by {
            let i = choose|i: int|
                0 <= i < rest.len() && binding(names, (#[trigger] rest[i]).name@) is Some
                    && rest[i].slot@ <= k < rest[i].slot@ + 4;
            assert(imports[i] == rest[i]);
        }
        assert forall|k: int| 0 <= k < a.len() && slot_byte(names, imports, k) && !slot_byte(
            names,
            rest,
            k,
        ) implies binding(names, last.name@) is Some && last.slot@ <= k < last.slot@ + 4 by {
            let i = choose|i: int|
                0 <= i < imports.len() && binding(names, (#[trigger] imports[i]).name@) is Some
                    && imports[i].slot@ <= k < imports[i].slot@ + 4;
            if i < rest.len() {
                assert(rest[i] == imports[i]);
            }
        }
        if binding(names, last.name@) is Some {
            assert forall|k: int| last.slot@ <= k < last.slot@ + 4 implies slot_byte(
                names,
                imports,
                k,
            ) by {
                assert(imports[imports.len() - 1] == last);
            }
        }
    }
}

/// Loading a binary a second time changes nothing: the slots hold after the
/// second load what they held after the first.
pub proof fn lemma_link_idempotent(
    contents: Seq<u8>,
    names: Seq<Seq<u8>>,
    trampolines: Seq<u32>,
    imports: Seq<Import>,
)
    ensures
        patched(patched(contents, names, trampolines, imports), names, trampolines, imports)
            == patched(contents, names, trampolines, imports),
{
    let once = patched(contents, names, trampolines, imports);
    lemma_patched_agree(contents, contents, names, trampolines, imports);
    lemma_patched_agree(once, contents, names, trampolines, imports);
    let twice = patched(once, names, trampolines, imports);
    assert(twice =~= once);
}

/// Resolution is total over a closed export set: where every imported name
/// is exported, no import is left unresolved.
pub proof fn lemma_closed_set_resolves(names: Seq<Seq<u8>>, imports: Seq<Import>)
    requires
        forall|i: int| 0 <= i < imports.len() ==> names.contains((#[trigger] imports[i]).name@),
    ensures
        unresolved_of(names, imports).len() == 0,
    decreases imports.len(),
{
    if imports.len() > 0 {
        assert forall|i: int| 0 <= i < imports.drop_last().len() implies names.contains(
            (#[trigger] imports.drop_last()[i]).name@,
        ) by {
            assert(imports.drop_last()[i] == imports[i]);
        }
        lemma_closed_set_resolves(names, imports.drop_last());
        assert(names.contains(imports[imports.len() - 1].name@));
    }
}

} // verus!
