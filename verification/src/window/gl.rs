//! Which OpenGL context to ask the host for.

use vstd::prelude::*;

verus! {

/// The versions of OpenGL that a context can be created for.
#[derive(Clone, Copy, Debug, PartialEq, Eq, Structural)]
pub enum GLVersion {
    /// OpenGL ES 1.1
    GLES11,
    /// OpenGL 2.1 compatibility profile
    GL21Compat,
    /// OpenGL 3.2 core profile
    GL32Core,
}

/// The profiles of OpenGL.
#[derive(Clone, Copy, Debug, PartialEq, Eq, Structural)]
pub enum Profile {
    Core,
    Compatibility,
    GLES,
}

/// What to ask the host for to get a context of a version.
#[derive(Clone, Copy, Debug, PartialEq, Eq, Structural)]
pub struct ContextRequest {
    pub major: u8,
    pub minor: u8,
    pub profile: Profile,
}

/// The request for a version.
pub open spec fn request_for(version: GLVersion) -> ContextRequest {
    match version {
        GLVersion::GLES11 => ContextRequest { major: 1, minor: 1, profile: Profile::GLES },
        GLVersion::GL21Compat => ContextRequest {
            major: 2,
            minor: 1,
            profile: Profile::Compatibility,
        },
        GLVersion::GL32Core => ContextRequest { major: 3, minor: 2, profile: Profile::Core },
    }
}

/// The attributes to set before a context of a version is created.
pub fn context_request(version: GLVersion) -> (request: ContextRequest)
    ensures
        request == request_for(version),
{
    match version {
        GLVersion::GLES11 => ContextRequest { major: 1, minor: 1, profile: Profile::GLES },
        GLVersion::GL21Compat => ContextRequest {
            major: 2,
            minor: 1,
            profile: Profile::Compatibility,
        },
        GLVersion::GL32Core => ContextRequest { major: 3, minor: 2, profile: Profile::Core },
    }
}

/// The rectangle of the host's window that the guest's picture goes to, as
/// the signed numbers that OpenGL takes, or `None` where one of the numbers
/// is too large for that.
pub fn viewport(offset: (u32, u32), size: (u32, u32)) -> (res: Option<(i32, i32, i32, i32)>)
    ensures
        match res {
            Some(v) => v.0 == offset.0 && v.1 == offset.1 && v.2 == size.0 && v.3 == size.1,
            None => offset.0 > i32::MAX || offset.1 > i32::MAX || size.0 > i32::MAX || size.1
                > i32::MAX,
        },
{
    if offset.0 > 0x7fff_ffff || offset.1 > 0x7fff_ffff || size.0 > 0x7fff_ffff || size.1
        > 0x7fff_ffff {
        None
    } else {
        Some((offset.0 as i32, offset.1 as i32, size.0 as i32, size.1 as i32))
    }
}

} // verus!
