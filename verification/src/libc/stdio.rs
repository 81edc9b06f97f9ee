//! `stdio.h`.

use crate::libc::unistd::FileDescriptor;
use crate::mem::{le_u32, read_le_u32, SafeRead};
use vstd::prelude::*;

pub mod printf;
pub mod text;

verus! {

/// The guest's `FILE`: a stream, by its file descriptor.
#[derive(Clone, Copy, Debug, PartialEq, Eq, Structural)]
pub struct FILE {
    pub fd: FileDescriptor,
}

impl SafeRead for FILE {
    open spec fn guest_size() -> nat {
        4
    }

    /// One word: the file descriptor, in two's complement.
    open spec fn from_guest(bytes: Seq<u8>) -> FILE {
        FILE { fd: le_u32(bytes) as i32 }
    }

    fn size() -> (n: u32) {
        4
    }

    fn decode(bytes: &[u8]) -> (value: FILE) {
        assert(bytes@.subrange(0, 4) =~= bytes@);
        FILE { fd: read_le_u32(bytes, 0) as i32 }
    }
}

} // verus!
