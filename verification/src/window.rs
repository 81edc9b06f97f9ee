//! What the library decides of the window on the host.

pub mod gl;
