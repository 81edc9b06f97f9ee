//! Miscellaneous parts of `unistd.h`.
#![allow(non_camel_case_types)]

use vstd::prelude::*;

verus! {

pub type useconds_t = u32;

pub type pid_t = i32;

pub type FileDescriptor = i32;

pub const STDIN_FILENO: FileDescriptor = 0;

pub const STDOUT_FILENO: FileDescriptor = 1;

pub const STDERR_FILENO: FileDescriptor = 2;

pub const F_OK: i32 = 0;

pub const R_OK: i32 = 4;

pub const W_OK: i32 = 2;

pub const X_OK: i32 = 1;

/// A request to suspend the calling guest thread for a while.
#[derive(Clone, Copy, Debug, PartialEq, Eq, Structural)]
pub struct Suspension {
    /// For how long, in microseconds.
    pub micros: u64,
}

/// `sleep`: asks for a suspension of so many seconds and answers the time
/// left unslept, which is none, since nothing wakes a thread early.
pub fn sleep(seconds: u32) -> (res: (Suspension, u32))
    ensures
        res.0.micros == seconds * 1_000_000,
        res.1 == 0,
{
    (Suspension { micros: seconds as u64 * 1_000_000 }, 0)
}

/// `usleep`: asks for a suspension of so many microseconds and answers
/// success.
pub fn usleep(useconds: useconds_t) -> (res: (Suspension, i32))
    ensures
        res.0.micros == useconds,
        res.1 == 0,
{
    (Suspension { micros: useconds as u64 }, 0)
}

/// `getpid`: there is one process, and it is not the first of the system.
pub fn getpid() -> (pid: pid_t)
    ensures
        pid == 1,
{
    1
}

/// `getppid`: the one process counts as a child of the first of the system.
pub fn getppid() -> (pid: pid_t)
    ensures
        pid == 0,
{
    0
}

/// `isatty`: the three standard streams are terminals, nothing else is.
pub fn isatty(fd: FileDescriptor) -> (res: i32)
    ensures
        res == if fd == STDIN_FILENO || fd == STDOUT_FILENO || fd == STDERR_FILENO {
            1i32
        } else {
            0i32
        },
{
    if fd == STDIN_FILENO || fd == STDOUT_FILENO || fd == STDERR_FILENO {
        1
    } else {
        0
    }
}

/// What the file system says of a path.
#[derive(Clone, Copy, Debug, PartialEq, Eq, Structural)]
pub struct Permissions {
    pub exists: bool,
    pub readable: bool,
    pub writable: bool,
    pub executable: bool,
}

/// Whether a mode asks for a kind of access that is not to be had.
pub open spec fn denied(p: Permissions, mode: i32) -> bool {
    ||| mode & R_OK != 0 && !p.readable
    ||| mode & W_OK != 0 && !p.writable
    ||| mode & X_OK != 0 && !p.executable
}

/// `access`: 0 where the path may be accessed in every way that the mode
/// asks for, else -1. The mode that asks for nothing asks whether the path
/// exists.
pub fn access(permissions: Permissions, mode: i32) -> (res: i32)
    ensures
        res == if mode == F_OK {
            if permissions.exists {
                0i32
            } else {
                -1i32
            }
        } else if denied(permissions, mode) {
            -1i32
        } else {
            0i32
        },
{
    if mode == F_OK {
        return if permissions.exists {
            0
        } else {
            -1
        };
    }
    if mode & R_OK != 0 && !permissions.readable {
        return -1;
    }
    if mode & W_OK != 0 && !permissions.writable {
        return -1;
    }
    if mode & X_OK != 0 && !permissions.executable {
        return -1;
    }
    0
}

} // verus!
