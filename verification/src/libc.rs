//! Functions of the C standard library.

pub mod stdio;
pub mod unistd;
