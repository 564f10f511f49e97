//! Transcoding of character-skeleton animation data between a legacy,
//! versioned binary container format and a modern interchange scene format.
//!
//! The heart of the crate is the bone-sample codec: compressed per-bone
//! transform sample streams are decoded into a structured in-memory model and
//! encoded back, preserving bit-level round-trip fidelity.  Floating-point
//! scalars are carried as their IEEE-754 bit patterns (`u32`) or as packed
//! 16-bit integers, exactly as they sit in the stream; interpreting them as
//! real numbers is left to unverified front-ends.

pub mod accessor;
pub mod beats;
pub mod char_bone;
pub mod char_bones_io;
pub mod cli;
pub mod char_bones_samples;
pub mod char_clip_samples;
pub mod export;
pub mod import;
pub mod scene;
pub mod stream;
pub mod symbols;
pub mod system;
