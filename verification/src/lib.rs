//! Guest/host call bridge and object runtime of a high-level emulator,
//! together with a few of the system library functions built on it.

pub mod abi;
pub mod ascii;
pub mod bundle;
pub mod bytes;
pub mod cpu;
pub mod dyld;
pub mod environment;
pub mod frameworks;
pub mod libc;
pub mod mem;
pub mod objc;
pub mod window;
