//! Target-system profile: platform, format version and byte order.
//!
//! Every load/save call honours one of these profiles; the byte order decides
//! how multi-byte fields are laid out in the binary streams.

use vstd::prelude::*;

verus! {

/// Byte order of a binary stream.
#[derive(Clone, Copy, Debug, PartialEq, Eq, Structural)]
pub enum IOEndian {
    Little,
    Big,
}

/// Target platform of a scene-object archive.
#[derive(Clone, Copy, Debug, PartialEq, Eq, Structural)]
pub enum Platform {
    PS2,
    PS3,
    X360,
    Wii,
}

/// A named, versioned system profile; honoured exactly on every call.
#[derive(Clone, Copy, Debug, PartialEq, Eq, Structural)]
pub struct SystemInfo {
    pub version: u32,
    pub platform: Platform,
    pub endian: IOEndian,
}

} // verus!
