//! The triangle record of the model container.
use vstd::prelude::*;
use vstd::slice::slice_subrange;
use crate::bytes::{le_u16_at, read_le_u16};
use crate::error::AssetError;

verus! {

/// One face: three indices into the vertex table and one into the material
/// table.
#[derive(Debug, Clone, Copy, PartialEq, Eq)]
pub struct Triangle {
    pub vertex1: u16,
    pub vertex2: u16,
    pub vertex3: u16,
    pub material_id: u16,
}

/// The size of a triangle record on disk.
pub const TRIANGLE_BYTES: usize = 8;

/// The triangle stored at `b[i..i + 8]`. On disk the four little-endian
/// fields come in the order `vertex2, vertex1, material_id, vertex3`, which
/// keeps the model's front-face winding.
pub open spec fn triangle_at(b: Seq<u8>, i: int) -> Triangle {
    Triangle {
        vertex2: le_u16_at(b, i),
        vertex1: le_u16_at(b, i + 2),
        material_id: le_u16_at(b, i + 4),
        vertex3: le_u16_at(b, i + 6),
    }
}

impl Triangle {
    /// Decodes the triangle at the start of `input`; gives the record and
    /// the bytes after it.
    pub fn parse(input: &[u8]) -> (r: Result<(&[u8], Triangle), AssetError>)
        ensures
            input@.len() < 8 ==> r == Err::<(&[u8], Triangle), _>(AssetError::InsufficientRecordBytes),
            input@.len() >= 8 ==> (r matches Ok((rest, t)) && t == triangle_at(input@, 0) && rest@
                == input@.subrange(8, input@.len() as int)),
    {
        if input.len() < TRIANGLE_BYTES {
            return Err(AssetError::InsufficientRecordBytes);
        }
        let t = Triangle::read_at(input, 0);
        Ok((slice_subrange(input, TRIANGLE_BYTES, input.len()), t))
    }

    /// Decodes the triangle at `b[i..i + 8]`.
    pub fn read_at(b: &[u8], i: usize) -> (t: Triangle)
        requires
            i + 8 <= b.len(),
        ensures
            t == triangle_at(b@, i as int),
    {
        let vertex2 = read_le_u16(b, i);
        let vertex1 = read_le_u16(b, i + 2);
        let material_id = read_le_u16(b, i + 4);
        let vertex3 = read_le_u16(b, i + 6);
        Triangle { vertex1, vertex2, vertex3, material_id }
    }
}

} // verus!
