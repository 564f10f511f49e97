//! Scene math value types.
//!
//! Every scalar is the raw bit pattern of a 32-bit float; this crate moves
//! and serializes them without interpreting them as real numbers.

use vstd::prelude::*;

verus! {

/// A three-component vector of `f32` bit patterns.
#[derive(Clone, Copy, Debug, PartialEq, Eq, Structural)]
pub struct Vector3 {
    pub x: u32,
    pub y: u32,
    pub z: u32,
}

/// A quaternion of `f32` bit patterns.
#[derive(Clone, Copy, Debug, PartialEq, Eq, Structural)]
pub struct Quat {
    pub x: u32,
    pub y: u32,
    pub z: u32,
    pub w: u32,
}

/// The bit pattern of the 32-bit float `1.0`.
pub const ONE_BITS: u32 = 0x3F80_0000;

/// A 4x4 matrix of `f32` bit patterns, row-major by field name.
#[derive(Clone, Copy, Debug, PartialEq, Eq, Structural)]
pub struct Matrix {
    pub m11: u32,
    pub m12: u32,
    pub m13: u32,
    pub m14: u32,
    pub m21: u32,
    pub m22: u32,
    pub m23: u32,
    pub m24: u32,
    pub m31: u32,
    pub m32: u32,
    pub m33: u32,
    pub m34: u32,
    pub m41: u32,
    pub m42: u32,
    pub m43: u32,
    pub m44: u32,
}

impl Default for Vector3 {
    fn default() -> (r: Vector3)
        ensures
            r == (Vector3 { x: 0, y: 0, z: 0 }),
    {
        Vector3 { x: 0, y: 0, z: 0 }
    }
}

impl Default for Quat {
    fn default() -> (r: Quat)
        ensures
            r == (Quat { x: 0, y: 0, z: 0, w: 0 }),
    {
        Quat { x: 0, y: 0, z: 0, w: 0 }
    }
}

/// The identity matrix (ones down the diagonal, zero elsewhere).
pub open spec fn spec_identity_matrix() -> Matrix {
    Matrix {
        m11: ONE_BITS,
        m12: 0,
        m13: 0,
        m14: 0,
        m21: 0,
        m22: ONE_BITS,
        m23: 0,
        m24: 0,
        m31: 0,
        m32: 0,
        m33: ONE_BITS,
        m34: 0,
        m41: 0,
        m42: 0,
        m43: 0,
        m44: ONE_BITS,
    }
}

impl Matrix {
    /// The identity matrix.
    pub fn identity() -> (r: Matrix)
        ensures
            r == spec_identity_matrix(),
    {
        Matrix {
            m11: ONE_BITS,
            m12: 0,
            m13: 0,
            m14: 0,
            m21: 0,
            m22: ONE_BITS,
            m23: 0,
            m24: 0,
            m31: 0,
            m32: 0,
            m33: ONE_BITS,
            m34: 0,
            m41: 0,
            m42: 0,
            m43: 0,
            m44: ONE_BITS,
        }
    }
}

impl Default for Matrix {
    fn default() -> (r: Matrix)
        ensures
            r == spec_identity_matrix(),
    {
        Matrix::identity()
    }
}

} // verus!
