//! The character bone object: a named node with local and world transforms,
//! a named parent reference, a rotation constraint and per-property flags.

use vstd::prelude::*;

use crate::scene::{spec_identity_matrix, Matrix, ONE_BITS};
use crate::stream::{spec_u32_bytes, ByteWriter};
use crate::char_bones_io::spec_sym_bytes;
use vstd::utf8::is_ascii_chars;

verus! {

/// An error raised while loading a character bone.
#[derive(Clone, Copy, Debug, PartialEq, Eq, Structural)]
pub enum CharBoneLoadError {
    /// The bone names a format version this codec does not support.
    CharBoneVersionNotSupported { version: u32 },
}

/// The bone-object versions this codec accepts.
pub fn is_version_supported(version: u32) -> (r: bool)
    ensures
        r == (version == 2 || version == 3 || version == 8),
{
    match version {
        2 => true,
        3 => true,
        8 => true,
        _ => false,
    }
}

/// Which rotation components a bone constrains: none, all, or one axis.
#[allow(non_camel_case_types)]
#[derive(Clone, Copy, Debug, PartialEq, Eq, Structural)]
pub enum RotationConstraint {
    kRotNone,
    kRotFull,
    kRotX,
    kRotY,
    kRotZ,
}

/// The numeric code a rotation constraint carries in the binary format.
pub open spec fn spec_rot_code(r: RotationConstraint) -> u32 {
    match r {
        RotationConstraint::kRotNone => 9,
        RotationConstraint::kRotFull => 2,
        RotationConstraint::kRotX => 3,
        RotationConstraint::kRotY => 4,
        RotationConstraint::kRotZ => 5,
    }
}

/// The constraint a numeric code denotes; unknown codes fall back to none.
pub open spec fn spec_rot_of_code(n: u32) -> RotationConstraint {
    if n == 2 {
        RotationConstraint::kRotFull
    } else if n == 3 {
        RotationConstraint::kRotX
    } else if n == 4 {
        RotationConstraint::kRotY
    } else if n == 5 {
        RotationConstraint::kRotZ
    } else {
        RotationConstraint::kRotNone
    }
}

impl RotationConstraint {
    /// The numeric code this constraint carries in the binary format.
    pub fn to_code(&self) -> (r: u32)
        ensures
            r == spec_rot_code(*self),
    {
        match self {
            RotationConstraint::kRotNone => 9,
            RotationConstraint::kRotFull => 2,
            RotationConstraint::kRotX => 3,
            RotationConstraint::kRotY => 4,
            RotationConstraint::kRotZ => 5,
        }
    }
}

impl core::convert::From<u32> for RotationConstraint {
    fn from(num: u32) -> (r: RotationConstraint) {
        match num {
            9 => RotationConstraint::kRotNone,
            2 => RotationConstraint::kRotFull,
            3 => RotationConstraint::kRotX,
            4 => RotationConstraint::kRotY,
            5 => RotationConstraint::kRotZ,
            _ => RotationConstraint::kRotNone,
        }
    }
}

impl vstd::std_specs::convert::FromSpecImpl<u32> for RotationConstraint {
    open spec fn obeys_from_spec() -> bool {
        true
    }

    open spec fn from_spec(num: u32) -> RotationConstraint {
        spec_rot_of_code(num)
    }
}

/// A character bone: symbolic name, local and world transform, parent name
/// reference, per-property flags, rotation constraint and a weight field
/// (`f32` bits).
#[derive(Debug)]
pub struct CharBone {
    pub name: String,
    pub local_xfm: Matrix,
    pub world_xfm: Matrix,
    pub parent: String,
    pub position: bool,
    pub scale: bool,
    pub rotation: RotationConstraint,
    pub unknown: u32,
}

impl Default for CharBone {
    fn default() -> (r: CharBone)
        ensures
            r.name@ == Seq::<char>::empty(),
            r.parent@ == Seq::<char>::empty(),
            r.local_xfm == spec_identity_matrix(),
            r.world_xfm == spec_identity_matrix(),
            r.position && r.scale,
            r.rotation == RotationConstraint::kRotFull,
            r.unknown == ONE_BITS,
    {
        CharBone {
            name: String::new(),
            local_xfm: Matrix::identity(),
            world_xfm: Matrix::identity(),
            parent: String::new(),
            position: true,
            scale: true,
            rotation: RotationConstraint::kRotFull,
            unknown: ONE_BITS,
        }
    }
}

/// The bytes of one 4x4 matrix, sixteen 32-bit floats in field order.
#[verifier::opaque]
pub open spec fn spec_matrix_bytes(m: Matrix, big: bool) -> Seq<u8> {
    spec_u32_bytes(big, m.m11) + spec_u32_bytes(big, m.m12) + spec_u32_bytes(big, m.m13)
        + spec_u32_bytes(big, m.m14) + spec_u32_bytes(big, m.m21) + spec_u32_bytes(big, m.m22)
        + spec_u32_bytes(big, m.m23) + spec_u32_bytes(big, m.m24) + spec_u32_bytes(big, m.m31)
        + spec_u32_bytes(big, m.m32) + spec_u32_bytes(big, m.m33) + spec_u32_bytes(big, m.m34)
        + spec_u32_bytes(big, m.m41) + spec_u32_bytes(big, m.m42) + spec_u32_bytes(big, m.m43)
        + spec_u32_bytes(big, m.m44)
}

/// Writes one matrix.
#[verifier::rlimit(100)]
fn write_matrix(writer: &mut ByteWriter, m: &Matrix)
    ensures
        final(writer).endian == old(writer).endian,
        final(writer).data@ == old(writer).data@ + spec_matrix_bytes(*m, old(writer).spec_big()),
{
    writer.write_f32_bits(m.m11);
    writer.write_f32_bits(m.m12);
    writer.write_f32_bits(m.m13);
    writer.write_f32_bits(m.m14);
    writer.write_f32_bits(m.m21);
    writer.write_f32_bits(m.m22);
    writer.write_f32_bits(m.m23);
    writer.write_f32_bits(m.m24);
    writer.write_f32_bits(m.m31);
    writer.write_f32_bits(m.m32);
    writer.write_f32_bits(m.m33);
    writer.write_f32_bits(m.m34);
    writer.write_f32_bits(m.m41);
    writer.write_f32_bits(m.m42);
    writer.write_f32_bits(m.m43);
    writer.write_f32_bits(m.m44);
    proof {
        reveal(spec_matrix_bytes);
        assert(final(writer).data@ =~= old(writer).data@ + spec_matrix_bytes(
            *m,
            old(writer).spec_big(),
        ));
    }
}

/// Writes the transform block: name, the two matrices, the parent name.
#[verifier::rlimit(100)]
fn write_bone_trans(writer: &mut ByteWriter, b: &CharBone)
    requires
        is_ascii_chars(b.name@),
        b.name@.len() <= u32::MAX,
        is_ascii_chars(b.parent@),
        b.parent@.len() <= u32::MAX,
    ensures
        final(writer).endian == old(writer).endian,
        final(writer).data@ == old(writer).data@ + (spec_sym_bytes(
            b.name@,
            old(writer).spec_big(),
        ) + spec_matrix_bytes(b.local_xfm, old(writer).spec_big()) + spec_matrix_bytes(
            b.world_xfm,
            old(writer).spec_big(),
        ) + spec_sym_bytes(b.parent@, old(writer).spec_big())),
{
    let ghost big = old(writer).spec_big();
    let ghost base = old(writer).data@;
    writer.write_prefixed_string(&b.name);
    let ghost q1 = spec_sym_bytes(b.name@, big);
    proof {
        assert(writer.data@ =~= base + q1);
    }
    write_matrix(writer, &b.local_xfm);
    let ghost q2 = q1 + spec_matrix_bytes(b.local_xfm, big);
    proof {
        assert(writer.data@ =~= base + q2);
    }
    write_matrix(writer, &b.world_xfm);
    let ghost q3 = q2 + spec_matrix_bytes(b.world_xfm, big);
    proof {
        assert(writer.data@ =~= base + q3);
    }
    writer.write_prefixed_string(&b.parent);
    proof {
        assert(writer.data@ =~= base + (q3 + spec_sym_bytes(b.parent@, big)));
    }
}

/// The version this codec writes.
pub const CHAR_BONE_SAVE_VERSION: u32 = 3;

/// The serialized form of a bone at the written version: version, name,
/// local and world transforms, parent name, position and scale flags, the
/// rotation constraint code, a second constraint slot written as "none"
/// below version 5, and the weight field from version 3 on.
pub open spec fn spec_char_bone_bytes(b: CharBone, big: bool) -> Seq<u8> {
    spec_u32_bytes(big, CHAR_BONE_SAVE_VERSION) + (spec_sym_bytes(b.name@, big)
        + spec_matrix_bytes(b.local_xfm, big) + spec_matrix_bytes(b.world_xfm, big)
        + spec_sym_bytes(b.parent@, big)) + seq![
        if b.position {
            1u8
        } else {
            0u8
        },
        if b.scale {
            1u8
        } else {
            0u8
        },
    ] + spec_u32_bytes(big, spec_rot_code(b.rotation)) + spec_u32_bytes(
        big,
        spec_rot_code(RotationConstraint::kRotNone),
    ) + spec_u32_bytes(big, b.unknown)
}

impl CharBone {
    /// Serializes the bone; see [`spec_char_bone_bytes`] for the layout.
    #[verifier::rlimit(100)]
    pub fn save(&self, writer: &mut ByteWriter)
        requires
            is_ascii_chars(self.name@),
            self.name@.len() <= u32::MAX,
            is_ascii_chars(self.parent@),
            self.parent@.len() <= u32::MAX,
        ensures
            final(writer).endian == old(writer).endian,
            final(writer).data@ == old(writer).data@ + spec_char_bone_bytes(
                *self,
                old(writer).spec_big(),
            ),
    {
        let ghost big = old(writer).spec_big();
        let ghost base = old(writer).data@;
        let version: u32 = CHAR_BONE_SAVE_VERSION;
        writer.write_u32(version);
        let ghost q1 = spec_u32_bytes(big, CHAR_BONE_SAVE_VERSION);
        proof {
            assert(writer.data@ =~= base + q1);
        }
        write_bone_trans(writer, self);
        let ghost q5 = q1 + (spec_sym_bytes(self.name@, big) + spec_matrix_bytes(
            self.local_xfm,
            big,
        ) + spec_matrix_bytes(self.world_xfm, big) + spec_sym_bytes(self.parent@, big));
        proof {
            assert(writer.data@ =~= base + q5);
        }
        writer.write_bool(self.position);
        writer.write_bool(self.scale);
        let ghost q6 = q5 + seq![
            if self.position {
                1u8
            } else {
                0u8
            },
            if self.scale {
                1u8
            } else {
                0u8
            },
        ];
        proof {
            assert(writer.data@ =~= base + q6);
        }
        writer.write_u32(self.rotation.to_code());
        let ghost q7 = q6 + spec_u32_bytes(big, spec_rot_code(self.rotation));
        proof {
            assert(writer.data@ =~= base + q7);
        }
        if version < 5 {
            writer.write_u32(9);
        }
        let ghost q8 = q7 + spec_u32_bytes(big, spec_rot_code(RotationConstraint::kRotNone));
        proof {
            assert(writer.data@ =~= base + q8);
        }
        if version >= 3 {
            writer.write_f32_bits(self.unknown);
        }
        let ghost q9 = q8 + spec_u32_bytes(big, self.unknown);
        proof {
            assert(writer.data@ =~= base + q9);
            assert(q9 == spec_char_bone_bytes(*self, big));
        }
    }
}

} // verus!
