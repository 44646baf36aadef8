//! A compact binary format for 3D mesh geometry.
//!
//! Meshes carry up to six optional attribute arrays: vertex positions,
//! normals, UV coordinates, and one triangle-index array for each of the
//! three. A file holds a fixed header followed by framed segments, one per
//! present attribute array. Attribute components are fixed-point numbers:
//! an `i64` counts units of `1 / UNIT` (so `UNIT` is the value 1.0).
//! Writing quantizes components to a step derived from the mesh's shortest
//! triangle edge and the caller's precision settings, so decoding
//! reconstructs every component to within one step.

use vstd::prelude::*;

pub mod mesh;
pub mod uv;
pub mod vertices;
pub mod normals;
pub mod reader;
pub mod tmf;
pub mod tmf_exporter;
pub mod tmf_importer;
pub mod utilis;

verus! {

/// A 3-component fixed-point vector: a position or a normal.
pub type Vector3 = (i64, i64, i64);

/// A 2-component fixed-point vector: a UV coordinate.
pub type Vector2 = (i64, i64);

/// A fatal condition met while reading a file.
#[derive(Debug, Clone, Copy, PartialEq, Eq, Structural)]
pub enum TMFImportError {
    /// The file does not start with the format's magic bytes.
    NotTMFFile,
    /// The file asks for a reader newer than this crate.
    NewerVersionRequired,
    /// The input ended before the structure it promised was complete.
    UnexpectedEnd,
    /// A mesh name was not valid UTF-8.
    InvalidUtf8,
    /// Two segments of one mesh carried the same attribute kind.
    DuplicateSegment,
    /// A segment payload did not have the shape its type promises.
    MalformedSegment,
}

/// A fatal condition met while writing a mesh out.
#[derive(Debug, Clone, Copy, PartialEq, Eq, Structural)]
pub enum TMFExportError {
    /// A triangle-index array is present without its paired attribute array.
    TrianglesWithoutAttribute,
    /// A triangle index points past the end of its paired attribute array.
    IndexOutOfBounds,
    /// A mesh name's UTF-8 form is longer than a length prefix can say.
    NameTooLong,
    /// An attribute component lies outside the codec's working range.
    CoordOutOfRange,
    /// An attribute array is too long for its on-disk count field.
    TooManyItems,
    /// More meshes than the file header's count field can say.
    TooManyMeshes,
}

/// Index into an attribute array; three in a row form a triangle.
pub type IndexType = u32;

/// The fixed-point value standing for 1.0: components count 1/65536 units.
pub const UNIT: i64 = 65536;

/// Largest magnitude a fixed-point component may have; keeps every
/// difference of two components, and every squared distance, in range.
pub const COORD_LIMIT: i64 = 0x100_0000_0000;

/// True when a fixed-point component is small enough for the codecs'
/// arithmetic (quantization and squared distances) to stay in range.
pub open spec fn coord_in_range(c: i64) -> bool {
    -COORD_LIMIT <= c <= COORD_LIMIT
}

/// Largest quantization step a file may carry; every step a writer derives
/// from a shortest edge fits under it.
pub const STEP_LIMIT: u64 = 0x400_0000_0000;

/// Per-attribute quantization settings, supplied by the caller at export
/// time. A precision value is the number of quantization steps per
/// reference unit: the mesh's shortest edge for positions, 1.0 for normals
/// and UVs. Higher values keep more detail and spend more bits.
#[derive(Debug, Clone, Copy, PartialEq, Eq, Structural)]
pub struct TMFPrecisionInfo {
    pub vertex_precision: u32,
    pub normal_precision: u32,
    pub uv_precision: u32,
    /// Deduplicate near-equal normals before writing.
    pub prune_normals: bool,
}

impl Default for TMFPrecisionInfo {
    /// Moderate settings: positions to 1/1024 of the shortest edge,
    /// normals to 1/256, UVs to 1/1024, no pruning.
    fn default() -> (r: TMFPrecisionInfo)
        ensures
            r == (TMFPrecisionInfo {
                vertex_precision: 1024,
                normal_precision: 256,
                uv_precision: 1024,
                prune_normals: false,
            }),
    {
        TMFPrecisionInfo {
            vertex_precision: 1024,
            normal_precision: 256,
            uv_precision: 1024,
            prune_normals: false,
        }
    }
}

/// The quantization step for one attribute: the reference length divided
/// into `precision` parts, clamped to a whole positive number of
/// fixed-point units and to the format's cap.
pub open spec fn step_of(reference: u64, precision: u32) -> u64 {
    let d: int = if precision == 0 {
        1
    } else {
        precision as int
    };
    let q = reference as int / d;
    if q < 1 {
        1
    } else if q > STEP_LIMIT {
        STEP_LIMIT
    } else {
        q as u64
    }
}

/// Computes [`step_of`].
pub fn compute_step(reference: u64, precision: u32) -> (r: u64)
    ensures
        r == step_of(reference, precision),
        1 <= r <= STEP_LIMIT,
{
    let d: u64 = if precision == 0 {
        1
    } else {
        precision as u64
    };
    let q = reference / d;
    if q < 1 {
        1
    } else if q > STEP_LIMIT {
        STEP_LIMIT
    } else {
        q
    }
}

/// Version of the format this crate writes.
pub const TMF_MAJOR: u16 = 0;

/// Minor version of the format this crate writes.
pub const TMF_MINOR: u16 = 2;

/// Lowest reader major version able to read what this crate writes.
pub const MIN_TMF_MAJOR: u16 = 0;

/// Lowest reader minor version able to read what this crate writes.
pub const MIN_TMF_MINOR: u16 = 1;

} // verus!
