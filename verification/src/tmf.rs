//! The framing protocol and the segment model: section tags, per-mesh
//! framing, the segment encode/decode/optimize/apply operations, and the
//! whole-file write and read entry points.

use vstd::bytes::{
    lemma_auto_spec_u16_to_from_le_bytes, spec_u16_from_le_bytes, spec_u16_to_le_bytes,
    spec_u32_from_le_bytes, spec_u32_to_le_bytes, spec_u64_from_le_bytes, spec_u64_to_le_bytes,
};
use vstd::prelude::*;
use vstd::slice::slice_to_vec;
use vstd::utf8::{decode_utf8, encode_utf8, valid_utf8};

use crate::mesh::{vec2s_in_range, vec3s_in_range, MeshView, TMFMesh};
use crate::reader::{write_u16, write_u32, write_u64, Reader};
use crate::tmf_importer::{CtxView, TMFImportContext};
use crate::utilis::{dist_sq3, sqrt_floor};
use crate::vertices::{triangles_payload, vec3_payload};
use crate::{
    coord_in_range, IndexType, TMFExportError, TMFImportError, TMFPrecisionInfo, Vector2, Vector3,
    MIN_TMF_MAJOR, MIN_TMF_MINOR, TMF_MAJOR, TMF_MINOR, UNIT,
};

verus! {

/// The kind of one framed segment. Tags outside the known set stand as
/// `Invalid` and are skipped on read, so a newer writer's segments pass
/// through an older reader.
#[derive(Debug, Clone, Copy, PartialEq, Eq, Structural)]
pub enum SectionType {
    Invalid,
    VertexSegment,
    VertexTriangleSegment,
    NormalSegment,
    NormalTriangleSegment,
    UvSegment,
    UvTriangleSegment,
    MaterialInfo,
    Materialtriangles,
}

/// The section a type tag names; everything outside the known set is
/// invalid.
pub open spec fn spec_section_from_u16(input: u16) -> SectionType {
    if input == 1 {
        SectionType::VertexSegment
    } else if input == 2 {
        SectionType::VertexTriangleSegment
    } else if input == 3 {
        SectionType::NormalSegment
    } else if input == 4 {
        SectionType::NormalTriangleSegment
    } else if input == 5 {
        SectionType::UvSegment
    } else if input == 6 {
        SectionType::UvTriangleSegment
    } else {
        SectionType::Invalid
    }
}

/// The tag this crate writes for a section.
pub open spec fn spec_section_tag(s: SectionType) -> u16 {
    match s {
        SectionType::Invalid => 0,
        SectionType::VertexSegment => 1,
        SectionType::VertexTriangleSegment => 2,
        SectionType::NormalSegment => 3,
        SectionType::NormalTriangleSegment => 4,
        SectionType::UvSegment => 5,
        SectionType::UvTriangleSegment => 6,
        SectionType::MaterialInfo => 7,
        SectionType::Materialtriangles => 8,
    }
}

impl SectionType {
    /// The section a 16-bit tag names.
    pub fn from_u16(input: u16) -> (r: SectionType)
        ensures
            r == spec_section_from_u16(input),
    {
        match input {
            1 => SectionType::VertexSegment,
            2 => SectionType::VertexTriangleSegment,
            3 => SectionType::NormalSegment,
            4 => SectionType::NormalTriangleSegment,
            5 => SectionType::UvSegment,
            6 => SectionType::UvTriangleSegment,
            _ => SectionType::Invalid,
        }
    }

    /// The section an 8-bit tag names.
    pub fn from_u8(input: u8) -> (r: SectionType)
        ensures
            r == spec_section_from_u16(input as u16),
    {
        SectionType::from_u16(input as u16)
    }

    /// The tag this crate writes for the section.
    pub fn tag(self) -> (r: u16)
        ensures
            r == spec_section_tag(self),
    {
        match self {
            SectionType::Invalid => 0,
            SectionType::VertexSegment => 1,
            SectionType::VertexTriangleSegment => 2,
            SectionType::NormalSegment => 3,
            SectionType::NormalTriangleSegment => 4,
            SectionType::UvSegment => 5,
            SectionType::UvTriangleSegment => 6,
            SectionType::MaterialInfo => 7,
            SectionType::Materialtriangles => 8,
        }
    }
}

/// A mesh name's wire form: a 16-bit byte length, then the UTF-8 bytes.
pub open spec fn string_bytes(name: Seq<char>) -> Seq<u8> {
    spec_u16_to_le_bytes(encode_utf8(name).len() as u16) + encode_utf8(name)
}

/// What a length-prefixed name means: the characters read, with how many
/// bytes they took, or the condition the bytes break.
pub open spec fn parse_string(s: Seq<u8>) -> Result<(int, Seq<char>), TMFImportError> {
    if s.len() < 2 {
        Err(TMFImportError::UnexpectedEnd)
    } else {
        let n = spec_u16_from_le_bytes(s.take(2)) as int;
        if s.len() < 2 + n {
            Err(TMFImportError::UnexpectedEnd)
        } else if !valid_utf8(s.subrange(2, 2 + n)) {
            Err(TMFImportError::InvalidUtf8)
        } else {
            Ok((2 + n, decode_utf8(s.subrange(2, 2 + n))))
        }
    }
}

/// Relies on `String::from_utf8`: it accepts exactly the byte sequences
/// that are valid UTF-8, and returns the string those bytes spell.
#[verifier::external_body]
fn string_from_utf8(bytes: Vec<u8>) -> (r: Option<String>)
    ensures
        (r is Some <==> valid_utf8(bytes@)),
        (r matches Some(s) ==> s@ == decode_utf8(bytes@)),
{
    String::from_utf8(bytes).ok()
}

/// Writes a name's wire form; refuses a name whose UTF-8 form outgrows
/// the 16-bit length prefix.
pub fn write_string(w: &mut Vec<u8>, s: &str) -> (r: Result<(), TMFExportError>)
    ensures
        (r is Ok <==> encode_utf8(s@).len() <= u16::MAX),
        r is Ok ==> final(w)@ == old(w)@ + string_bytes(s@),
        r is Err ==> final(w)@ == old(w)@ && r == Err::<(), TMFExportError>(
            TMFExportError::NameTooLong,
        ),
{
    let bytes = s.as_bytes();
    if bytes.len() > u16::MAX as usize {
        return Err(TMFExportError::NameTooLong);
    }
    write_u16(w, bytes.len() as u16);
    let mut tail = slice_to_vec(bytes);
    w.append(&mut tail);
    proof {
        assert(final(w)@ =~= old(w)@ + string_bytes(s@));
    }
    Ok(())
}

/// Reads one 16-bit little-endian value.
pub fn read_u16(r: &mut Reader) -> (res: Result<u16, TMFImportError>)
    requires
        old(r).wf(),
    ensures
        final(r).wf(),
        old(r).remaining().len() >= 2 ==> res == Ok::<u16, TMFImportError>(
            spec_u16_from_le_bytes(old(r).remaining().take(2)),
        ) && final(r).remaining() == old(r).remaining().skip(2),
        old(r).remaining().len() < 2 ==> res == Err::<u16, TMFImportError>(
            TMFImportError::UnexpectedEnd,
        ),
{
    r.read_u16()
}

/// Reads a length-prefixed UTF-8 name, exactly as [`parse_string`] says.
pub fn read_string(r: &mut Reader) -> (res: Result<String, TMFImportError>)
    requires
        old(r).wf(),
    ensures
        final(r).wf(),
        match parse_string(old(r).remaining()) {
            Ok((n, cs)) => res matches Ok(s) && s@ == cs && final(r).remaining() == old(
                r,
            ).remaining().skip(n),
            Err(e) => res == Err::<String, TMFImportError>(e),
        },
{
    let byte_len = r.read_u16()?;
    let bytes = r.read_bytes(byte_len as usize)?;
    proof {
        assert(bytes@ =~= old(r).remaining().subrange(2, 2 + byte_len as int));
        assert(old(r).remaining().skip(2).skip(byte_len as int) =~= old(r).remaining().skip(
            2 + byte_len as int,
        ));
    }
    match string_from_utf8(bytes) {
        Some(s) => Ok(s),
        None => Err(TMFImportError::InvalidUtf8),
    }
}

/// The header bytes this crate writes: magic, writer version, minimum
/// reader version, mesh count.
pub open spec fn header_bytes(mesh_count: u32) -> Seq<u8> {
    seq![84u8, 77u8, 70u8] + spec_u16_to_le_bytes(TMF_MAJOR) + spec_u16_to_le_bytes(TMF_MINOR)
        + spec_u16_to_le_bytes(MIN_TMF_MAJOR) + spec_u16_to_le_bytes(MIN_TMF_MINOR)
        + spec_u32_to_le_bytes(mesh_count)
}

/// Writes the file header for `mesh_count` meshes.
pub fn write_tmf_header(w: &mut Vec<u8>, mesh_count: u32)
    ensures
        final(w)@ == old(w)@ + header_bytes(mesh_count),
{
    w.push(84);
    w.push(77);
    w.push(70);
    write_u16(w, TMF_MAJOR);
    write_u16(w, TMF_MINOR);
    write_u16(w, MIN_TMF_MAJOR);
    write_u16(w, MIN_TMF_MINOR);
    write_u32(w, mesh_count);
    proof {
        assert(final(w)@ =~= old(w)@ + header_bytes(mesh_count));
    }
}

/// The smaller of two edge lengths, squared.
pub open spec fn min2(a: int, b: int) -> int {
    if a <= b {
        a
    } else {
        b
    }
}

/// The shortest squared edge of triangle `k`.
pub open spec fn tri_min_sq(tris: Seq<IndexType>, verts: Seq<Vector3>, k: int) -> int {
    let a = verts[tris[3 * k] as int];
    let b = verts[tris[3 * k + 1] as int];
    let c = verts[tris[3 * k + 2] as int];
    min2(dist_sq3(a, b), min2(dist_sq3(b, c), dist_sq3(c, a)))
}

/// The shortest squared edge among the first `n` triangles; with none, a
/// sentinel beyond every possible squared distance.
pub open spec fn min_edge_sq_upto(tris: Seq<IndexType>, verts: Seq<Vector3>, n: int) -> int
    decreases n,
{
    if n <= 0 {
        0xffff_ffff_ffff_ffff_ffff_ffff_ffff_ffff
    } else {
        min2(min_edge_sq_upto(tris, verts, n - 1), tri_min_sq(tris, verts, n - 1))
    }
}

/// The shortest edge a mesh's vertex data shows: the reference unit for
/// position quantization. Whole fixed-point units, rounded down; 1.0
/// when there is no triangle to measure.
pub open spec fn spec_shortest_edge(
    vertex_triangles: Option<Seq<IndexType>>,
    vertices: Option<Seq<Vector3>>,
) -> int {
    match vertex_triangles {
        Some(ts) => sqrt_floor(min_edge_sq_upto(ts, vertices.unwrap(), ts.len() as int / 3)),
        None => UNIT as int,
    }
}

/// Finds the shortest edge over every whole triangle; a triangle array
/// without a vertex array is a fatal consistency error, and a missing
/// triangle array means no known spacing, so one unit.
pub fn calc_shortest_edge(
    vertex_triangles: Option<&Vec<IndexType>>,
    vertices: Option<&Vec<Vector3>>,
) -> (r: Result<u64, TMFExportError>)
    requires
        match (vertex_triangles, vertices) {
            (Some(ts), Some(vs)) => vec3s_in_range(vs@) && forall|i: int|
                0 <= i < ts@.len() ==> (#[trigger] ts@[i]) < vs@.len(),
            _ => true,
        },
    ensures
        match vertex_triangles {
            Some(ts) => match vertices {
                Some(vs) => r matches Ok(se) && se == spec_shortest_edge(
                    Some(ts@),
                    Some(vs@),
                ),
                None => r == Err::<u64, TMFExportError>(TMFExportError::TrianglesWithoutAttribute),
            },
            None => r == Ok::<u64, TMFExportError>(UNIT as u64),
        },
{
    match vertex_triangles {
        Some(ts) => {
            let vs = match vertices {
                Some(vs) => vs,
                None => {
                    return Err(TMFExportError::TrianglesWithoutAttribute);
                },
            };
            let mut shortest: u128 = u128::MAX;
            let n = ts.len() / 3;
            let mut k: usize = 0;
            proof {
                assert(3 * (ts@.len() as int / 3) <= ts@.len()) by (nonlinear_arith);
            }
            while k < n
                invariant
                    n == ts@.len() as int / 3,
                    3 * n <= ts@.len(),
                    vec3s_in_range(vs@),
                    forall|i: int| 0 <= i < ts@.len() ==> (#[trigger] ts@[i]) < vs@.len(),
                    k <= n,
                    shortest == min_edge_sq_upto(ts@, vs@, k as int),
                decreases n - k,
            {
                let len = ts.len();
                proof {
                    assert(3 * (k as int) + 2 < len) by (nonlinear_arith)
                        requires
                            k < n,
                            3 * (n as int) <= len,
                    ;
                }
                let ia = ts[3 * k] as usize;
                let ib = ts[3 * k + 1] as usize;
                let ic = ts[3 * k + 2] as usize;
                let a = vs[ia];
                let b = vs[ib];
                let c = vs[ic];
                let d1 = crate::utilis::distance_sq(a, b);
                let d2 = crate::utilis::distance_sq(b, c);
                let d3 = crate::utilis::distance_sq(c, a);
                let m = if d1 <= d2 && d1 <= d3 {
                    d1
                } else if d2 <= d3 {
                    d2
                } else {
                    d3
                };
                if m < shortest {
                    shortest = m;
                }
                k = k + 1;
            }
            Ok(crate::utilis::isqrt(shortest))
        },
        None => Ok(UNIT as u64),
    }
}


/// What a decoded segment holds, mathematically.
pub enum SegValue {
    Nothing,
    Verts(Seq<Vector3>),
    Norms(Seq<Vector3>),
    Uvs(Seq<Vector2>),
    TriVerts(Seq<IndexType>),
    TriNorms(Seq<IndexType>),
    TriUvs(Seq<IndexType>),
}

/// A framed unit as read or written: a type tag and opaque payload
/// bytes.
pub struct EncodedSegment {
    seg_type: SectionType,
    data: Vec<u8>,
}

impl View for EncodedSegment {
    type V = (SectionType, Seq<u8>);

    closed spec fn view(&self) -> (SectionType, Seq<u8>) {
        (self.seg_type, self.data@)
    }
}

impl EncodedSegment {
    /// Wraps payload bytes under a type tag.
    pub fn new(seg_type: SectionType, data: Vec<u8>) -> (r: EncodedSegment)
        ensures
            r@ == (seg_type, data@),
    {
        EncodedSegment { seg_type, data }
    }

    /// The segment's type tag.
    pub fn seg_type(&self) -> (r: SectionType)
        ensures
            r == self@.0,
    {
        self.seg_type
    }
}

/// A typed segment payload: an attribute array of one of the six kinds,
/// or nothing, for segments of unknown kind that are carried but
/// ignored. It owns its array until applied to a mesh.
#[derive(Debug)]
pub enum DecodedSegment {
    Nothing,
    AppendVertex(Vec<Vector3>),
    AppendNormal(Vec<Vector3>),
    AppendUv(Vec<Vector2>),
    AppendTriangleVertex(Vec<IndexType>),
    AppendTriangleNormal(Vec<IndexType>),
    AppendTriangleUv(Vec<IndexType>),
}

impl View for DecodedSegment {
    type V = SegValue;

    open spec fn view(&self) -> SegValue {
        match self {
            DecodedSegment::Nothing => SegValue::Nothing,
            DecodedSegment::AppendVertex(v) => SegValue::Verts(v@),
            DecodedSegment::AppendNormal(v) => SegValue::Norms(v@),
            DecodedSegment::AppendUv(v) => SegValue::Uvs(v@),
            DecodedSegment::AppendTriangleVertex(v) => SegValue::TriVerts(v@),
            DecodedSegment::AppendTriangleNormal(v) => SegValue::TriNorms(v@),
            DecodedSegment::AppendTriangleUv(v) => SegValue::TriUvs(v@),
        }
    }
}

/// What a payload of a given section kind decodes to; unknown kinds
/// decode to nothing and are skipped rather than refused.
pub open spec fn decode_payload(st: SectionType, p: Seq<u8>, read_min: bool) -> Result<
    SegValue,
    TMFImportError,
> {
    match st {
        SectionType::VertexSegment => match crate::vertices::parse_vec3_payload(p) {
            Ok(vs) => Ok(SegValue::Verts(vs)),
            Err(e) => Err(e),
        },
        SectionType::NormalSegment => match crate::vertices::parse_vec3_payload(p) {
            Ok(vs) => Ok(SegValue::Norms(vs)),
            Err(e) => Err(e),
        },
        SectionType::UvSegment => match crate::uv::parse_vec2_payload(p) {
            Ok(vs) => Ok(SegValue::Uvs(vs)),
            Err(e) => Err(e),
        },
        SectionType::VertexTriangleSegment => match crate::vertices::parse_triangles_payload(
            p,
            read_min,
        ) {
            Ok(ts) => Ok(SegValue::TriVerts(ts)),
            Err(e) => Err(e),
        },
        SectionType::NormalTriangleSegment => match crate::vertices::parse_triangles_payload(
            p,
            read_min,
        ) {
            Ok(ts) => Ok(SegValue::TriNorms(ts)),
            Err(e) => Err(e),
        },
        SectionType::UvTriangleSegment => match crate::vertices::parse_triangles_payload(
            p,
            read_min,
        ) {
            Ok(ts) => Ok(SegValue::TriUvs(ts)),
            Err(e) => Err(e),
        },
        _ => Ok(SegValue::Nothing),
    }
}

/// What applying a decoded segment does to a mesh: fills the matching
/// field, or reports the duplicate when the field is already filled.
pub open spec fn apply_seg(m: MeshView, v: SegValue) -> Result<MeshView, TMFImportError> {
    match v {
        SegValue::Nothing => Ok(m),
        SegValue::Verts(vs) => if m.vertices is Some {
            Err(TMFImportError::DuplicateSegment)
        } else {
            Ok(MeshView { vertices: Some(vs), ..m })
        },
        SegValue::Norms(vs) => if m.normals is Some {
            Err(TMFImportError::DuplicateSegment)
        } else {
            Ok(MeshView { normals: Some(vs), ..m })
        },
        SegValue::Uvs(vs) => if m.uvs is Some {
            Err(TMFImportError::DuplicateSegment)
        } else {
            Ok(MeshView { uvs: Some(vs), ..m })
        },
        SegValue::TriVerts(ts) => if m.vertex_triangles is Some {
            Err(TMFImportError::DuplicateSegment)
        } else {
            Ok(MeshView { vertex_triangles: Some(ts), ..m })
        },
        SegValue::TriNorms(ts) => if m.normal_triangles is Some {
            Err(TMFImportError::DuplicateSegment)
        } else {
            Ok(MeshView { normal_triangles: Some(ts), ..m })
        },
        SegValue::TriUvs(ts) => if m.uv_triangles is Some {
            Err(TMFImportError::DuplicateSegment)
        } else {
            Ok(MeshView { uv_triangles: Some(ts), ..m })
        },
    }
}

/// What encoding a decoded segment produces: a tagged payload, or the
/// condition that makes the array unwritable.
pub open spec fn encode_seg_spec(
    v: SegValue,
    p_info: TMFPrecisionInfo,
    shortest_edge: u64,
) -> Result<(SectionType, Seq<u8>), TMFExportError> {
    match v {
        SegValue::Nothing => Ok((SectionType::Invalid, Seq::empty())),
        SegValue::Verts(vs) => if vs.len() > u32::MAX {
            Err(TMFExportError::TooManyItems)
        } else if !vec3s_in_range(vs) {
            Err(TMFExportError::CoordOutOfRange)
        } else {
            Ok(
                (
                    SectionType::VertexSegment,
                    vec3_payload(vs, crate::step_of(shortest_edge, p_info.vertex_precision)),
                ),
            )
        },
        SegValue::Norms(vs) => if vs.len() > u32::MAX {
            Err(TMFExportError::TooManyItems)
        } else if !vec3s_in_range(vs) {
            Err(TMFExportError::CoordOutOfRange)
        } else {
            Ok(
                (
                    SectionType::NormalSegment,
                    vec3_payload(vs, crate::step_of(UNIT as u64, p_info.normal_precision)),
                ),
            )
        },
        SegValue::Uvs(vs) => if vs.len() > u32::MAX {
            Err(TMFExportError::TooManyItems)
        } else if !vec2s_in_range(vs) {
            Err(TMFExportError::CoordOutOfRange)
        } else {
            Ok(
                (
                    SectionType::UvSegment,
                    crate::uv::vec2_payload(vs, crate::step_of(UNIT as u64, p_info.uv_precision)),
                ),
            )
        },
        SegValue::TriVerts(ts) => if ts.len() > u32::MAX {
            Err(TMFExportError::TooManyItems)
        } else {
            Ok((SectionType::VertexTriangleSegment, triangles_payload(ts)))
        },
        SegValue::TriNorms(ts) => if ts.len() > u32::MAX {
            Err(TMFExportError::TooManyItems)
        } else {
            Ok((SectionType::NormalTriangleSegment, triangles_payload(ts)))
        },
        SegValue::TriUvs(ts) => if ts.len() > u32::MAX {
            Err(TMFExportError::TooManyItems)
        } else {
            Ok((SectionType::UvTriangleSegment, triangles_payload(ts)))
        },
    }
}

/// The indices a triangle-kind segment value holds.
pub open spec fn tri_indices(v: SegValue) -> Seq<IndexType> {
    match v {
        SegValue::TriVerts(ts) => ts,
        SegValue::TriNorms(ts) => ts,
        SegValue::TriUvs(ts) => ts,
        _ => Seq::empty(),
    }
}

/// True when an optimizer output stands for exactly the input segment:
/// a triangle segment may split into several of its kind whose indices,
/// joined in order, are the original; anything else passes through.
pub open spec fn optimize_ok(orig: SegValue, outs: Seq<SegValue>) -> bool {
    match orig {
        SegValue::TriVerts(ts) => (forall|k: int| 0 <= k < outs.len() ==> outs[k] is TriVerts)
            && crate::vertices::concat_indices(
            Seq::new(outs.len(), |k: int| tri_indices(outs[k])),
        ) == ts,
        SegValue::TriNorms(ts) => (forall|k: int| 0 <= k < outs.len() ==> outs[k] is TriNorms)
            && crate::vertices::concat_indices(
            Seq::new(outs.len(), |k: int| tri_indices(outs[k])),
        ) == ts,
        SegValue::TriUvs(ts) => (forall|k: int| 0 <= k < outs.len() ==> outs[k] is TriUvs)
            && crate::vertices::concat_indices(
            Seq::new(outs.len(), |k: int| tri_indices(outs[k])),
        ) == ts,
        _ => outs == seq![orig],
    }
}

impl DecodedSegment {
    /// Interprets a raw segment's payload with the codec its tag picks,
    /// under the file's context.
    pub fn decode(encoded: EncodedSegment, ctx: &TMFImportContext) -> (r: Result<
        DecodedSegment,
        TMFImportError,
    >)
        ensures
            match decode_payload(encoded@.0, encoded@.1, ctx@.read_min) {
                Ok(v) => r matches Ok(d) && d@ == v,
                Err(e) => r == Err::<DecodedSegment, TMFImportError>(e),
            },
    {
        let EncodedSegment { seg_type, data } = encoded;
        match seg_type {
            SectionType::VertexSegment => match crate::vertices::decode_vec3_payload(&data) {
                Ok(vs) => Ok(DecodedSegment::AppendVertex(vs)),
                Err(e) => Err(e),
            },
            SectionType::NormalSegment => match crate::vertices::decode_vec3_payload(&data) {
                Ok(vs) => Ok(DecodedSegment::AppendNormal(vs)),
                Err(e) => Err(e),
            },
            SectionType::UvSegment => match crate::uv::decode_vec2_payload(&data) {
                Ok(vs) => Ok(DecodedSegment::AppendUv(vs)),
                Err(e) => Err(e),
            },
            SectionType::VertexTriangleSegment => match decode_triangles(data, ctx) {
                Ok(ts) => Ok(DecodedSegment::AppendTriangleVertex(ts)),
                Err(e) => Err(e),
            },
            SectionType::NormalTriangleSegment => match decode_triangles(data, ctx) {
                Ok(ts) => Ok(DecodedSegment::AppendTriangleNormal(ts)),
                Err(e) => Err(e),
            },
            SectionType::UvTriangleSegment => match decode_triangles(data, ctx) {
                Ok(ts) => Ok(DecodedSegment::AppendTriangleUv(ts)),
                Err(e) => Err(e),
            },
            _ => Ok(DecodedSegment::Nothing),
        }
    }

    /// Produces the segment's wire form under the caller's precision
    /// settings and the mesh's shortest-edge reference.
    pub fn encode(
        &self,
        p_info: &TMFPrecisionInfo,
        e_info: &crate::tmf_exporter::EncodeInfo,
    ) -> (r: Result<EncodedSegment, TMFExportError>)
        ensures
            match encode_seg_spec(self@, *p_info, e_info.shortest_edge) {
                Ok((st, p)) => r matches Ok(e) && e@ == (st, p),
                Err(e2) => r == Err::<EncodedSegment, TMFExportError>(e2),
            },
    {
        let mut buf: Vec<u8> = Vec::new();
        match self {
            DecodedSegment::Nothing => Ok(
                EncodedSegment { seg_type: SectionType::Invalid, data: buf },
            ),
            DecodedSegment::AppendVertex(vs) => {
                if vs.len() > u32::MAX as usize {
                    return Err(TMFExportError::TooManyItems);
                }
                if !crate::mesh::check_vec3s_range(vs) {
                    return Err(TMFExportError::CoordOutOfRange);
                }
                let step = crate::compute_step(e_info.shortest_edge, p_info.vertex_precision);
                crate::vertices::encode_vec3_payload(vs, step, &mut buf);
                Ok(EncodedSegment { seg_type: SectionType::VertexSegment, data: buf })
            },
            DecodedSegment::AppendNormal(vs) => {
                if vs.len() > u32::MAX as usize {
                    return Err(TMFExportError::TooManyItems);
                }
                if !crate::mesh::check_vec3s_range(vs) {
                    return Err(TMFExportError::CoordOutOfRange);
                }
                let step = crate::compute_step(UNIT as u64, p_info.normal_precision);
                crate::vertices::encode_vec3_payload(vs, step, &mut buf);
                Ok(EncodedSegment { seg_type: SectionType::NormalSegment, data: buf })
            },
            DecodedSegment::AppendUv(vs) => {
                if vs.len() > u32::MAX as usize {
                    return Err(TMFExportError::TooManyItems);
                }
                if !crate::mesh::check_vec2s_range(vs) {
                    return Err(TMFExportError::CoordOutOfRange);
                }
                let step = crate::compute_step(UNIT as u64, p_info.uv_precision);
                crate::uv::encode_vec2_payload(vs, step, &mut buf);
                Ok(EncodedSegment { seg_type: SectionType::UvSegment, data: buf })
            },
            DecodedSegment::AppendTriangleVertex(ts) => {
                if ts.len() > u32::MAX as usize {
                    return Err(TMFExportError::TooManyItems);
                }
                crate::vertices::encode_triangles_payload(ts, &mut buf);
                Ok(EncodedSegment { seg_type: SectionType::VertexTriangleSegment, data: buf })
            },
            DecodedSegment::AppendTriangleNormal(ts) => {
                if ts.len() > u32::MAX as usize {
                    return Err(TMFExportError::TooManyItems);
                }
                crate::vertices::encode_triangles_payload(ts, &mut buf);
                Ok(EncodedSegment { seg_type: SectionType::NormalTriangleSegment, data: buf })
            },
            DecodedSegment::AppendTriangleUv(ts) => {
                if ts.len() > u32::MAX as usize {
                    return Err(TMFExportError::TooManyItems);
                }
                crate::vertices::encode_triangles_payload(ts, &mut buf);
                Ok(EncodedSegment { seg_type: SectionType::UvTriangleSegment, data: buf })
            },
        }
    }

    /// Splits a triangle segment at the borders of long unit-step runs,
    /// so each run can take the compact run form; value- and
    /// order-preserving, as [`optimize_ok`] states. Other kinds pass
    /// through whole.
    pub fn optimize(self) -> (r: Vec<DecodedSegment>)
        ensures
            optimize_ok(self@, Seq::new(r@.len(), |k: int| r@[k]@)),
    {
        match self {
            DecodedSegment::AppendTriangleVertex(ts) => {
                let chunks = crate::vertices::split_runs(&ts);
                let ghost cv = Seq::new(chunks@.len(), |k: int| chunks@[k]@);
                let out = wrap_tri_chunks(chunks, SectionType::VertexTriangleSegment);
                proof {
                    lemma_concat_matches(cv, Seq::new(out@.len(), |k: int| out@[k]@));
                }
                out
            },
            DecodedSegment::AppendTriangleNormal(ts) => {
                let chunks = crate::vertices::split_runs(&ts);
                let ghost cv = Seq::new(chunks@.len(), |k: int| chunks@[k]@);
                let out = wrap_tri_chunks(chunks, SectionType::NormalTriangleSegment);
                proof {
                    lemma_concat_matches(cv, Seq::new(out@.len(), |k: int| out@[k]@));
                }
                out
            },
            DecodedSegment::AppendTriangleUv(ts) => {
                let chunks = crate::vertices::split_runs(&ts);
                let ghost cv = Seq::new(chunks@.len(), |k: int| chunks@[k]@);
                let out = wrap_tri_chunks(chunks, SectionType::UvTriangleSegment);
                proof {
                    lemma_concat_matches(cv, Seq::new(out@.len(), |k: int| out@[k]@));
                }
                out
            },
            other => {
                let mut out: Vec<DecodedSegment> = Vec::new();
                let ghost ov = other@;
                out.push(other);
                proof {
                    assert(Seq::new(out@.len(), |k: int| out@[k]@) =~= seq![ov]);
                }
                out
            },
        }
    }

    /// Moves the payload into the matching mesh field; a field already
    /// filled is a fatal duplicate, and the mesh is left as it was.
    pub fn apply(self, mesh: &mut TMFMesh) -> (r: Result<(), TMFImportError>)
        ensures
            match apply_seg(old(mesh)@, self@) {
                Ok(m2) => r is Ok && final(mesh)@ == m2,
                Err(e) => r == Err::<(), TMFImportError>(e) && final(mesh)@ == old(mesh)@,
            },
    {
        match self {
            DecodedSegment::Nothing => Ok(()),
            DecodedSegment::AppendVertex(vs) => {
                if mesh.get_vertices().is_some() {
                    Err(TMFImportError::DuplicateSegment)
                } else {
                    mesh.set_vertices(vs);
                    Ok(())
                }
            },
            DecodedSegment::AppendNormal(vs) => {
                if mesh.get_normals().is_some() {
                    Err(TMFImportError::DuplicateSegment)
                } else {
                    mesh.set_normals(vs);
                    Ok(())
                }
            },
            DecodedSegment::AppendUv(vs) => {
                if mesh.get_uvs().is_some() {
                    Err(TMFImportError::DuplicateSegment)
                } else {
                    mesh.set_uvs(vs);
                    Ok(())
                }
            },
            DecodedSegment::AppendTriangleVertex(ts) => {
                if mesh.get_vertex_triangles().is_some() {
                    Err(TMFImportError::DuplicateSegment)
                } else {
                    mesh.set_vertex_triangles(ts);
                    Ok(())
                }
            },
            DecodedSegment::AppendTriangleNormal(ts) => {
                if mesh.get_normal_triangles().is_some() {
                    Err(TMFImportError::DuplicateSegment)
                } else {
                    mesh.set_normal_triangles(ts);
                    Ok(())
                }
            },
            DecodedSegment::AppendTriangleUv(ts) => {
                if mesh.get_uv_triangles().is_some() {
                    Err(TMFImportError::DuplicateSegment)
                } else {
                    mesh.set_uv_triangles(ts);
                    Ok(())
                }
            },
        }
    }
}

/// When the index views of two chunk lists agree entry by entry, so do
/// their joined indices.
proof fn lemma_concat_matches(cv: Seq<Seq<IndexType>>, outs: Seq<SegValue>)
    requires
        outs.len() == cv.len(),
        forall|k: int| 0 <= k < outs.len() ==> tri_indices(#[trigger] outs[k]) == cv[k],
    ensures
        crate::vertices::concat_indices(Seq::new(outs.len(), |k: int| tri_indices(outs[k])))
            == crate::vertices::concat_indices(cv),
{
    assert(Seq::new(outs.len(), |k: int| tri_indices(outs[k])) =~= cv);
}

/// Decodes a triangle payload: the baseline the context calls for, then
/// the body.
fn decode_triangles(data: Vec<u8>, ctx: &TMFImportContext) -> (r: Result<
    Vec<IndexType>,
    TMFImportError,
>)
    ensures
        match crate::vertices::parse_triangles_payload(data@, ctx@.read_min) {
            Ok(ts) => r matches Ok(v) && v@ == ts,
            Err(e) => r == Err::<Vec<IndexType>, TMFImportError>(e),
        },
{
    let mut rd = Reader::new(data);
    let min = ctx.read_traingle_min(&mut rd)?;
    let n = rd.remaining_len();
    let rest = match rd.read_bytes(n) {
        Ok(b) => b,
        Err(e) => {
            return Err(e);
        },
    };
    proof {
        if ctx@.read_min {
            assert(rest@ =~= data@.skip(8));
        } else {
            assert(rest@ =~= data@);
        }
    }
    crate::vertices::decode_triangles_body(&rest, min)
}


/// The segment value a triangle chunk makes under a triangle section
/// kind.
pub open spec fn tri_value(kind: SectionType, ts: Seq<IndexType>) -> SegValue {
    match kind {
        SectionType::VertexTriangleSegment => SegValue::TriVerts(ts),
        SectionType::NormalTriangleSegment => SegValue::TriNorms(ts),
        _ => SegValue::TriUvs(ts),
    }
}

/// Wraps index chunks as decoded segments of one triangle kind, in
/// order.
fn wrap_tri_chunks(chunks: Vec<Vec<IndexType>>, kind: SectionType) -> (out: Vec<DecodedSegment>)
    requires
        kind == SectionType::VertexTriangleSegment || kind == SectionType::NormalTriangleSegment
            || kind == SectionType::UvTriangleSegment,
    ensures
        out@.len() == chunks@.len(),
        forall|k: int|
            0 <= k < out@.len() ==> (#[trigger] out@[k])@ == tri_value(kind, chunks@[k]@),
{
    let ghost cv = chunks@;
    let mut c = chunks;
    let mut out: Vec<DecodedSegment> = Vec::new();
    while c.len() > 0
        invariant
            kind == SectionType::VertexTriangleSegment || kind
                == SectionType::NormalTriangleSegment || kind == SectionType::UvTriangleSegment,
            out@.len() + c@.len() == cv.len(),
            forall|k: int| 0 <= k < c@.len() ==> #[trigger] c@[k] == cv[out@.len() + k],
            forall|k: int|
                0 <= k < out@.len() ==> (#[trigger] out@[k])@ == tri_value(kind, cv[k]@),
        decreases c@.len(),
    {
        let chunk = c.remove(0);
        let seg = match kind {
            SectionType::NormalTriangleSegment => DecodedSegment::AppendTriangleNormal(chunk),
            SectionType::UvTriangleSegment => DecodedSegment::AppendTriangleUv(chunk),
            _ => DecodedSegment::AppendTriangleVertex(chunk),
        };
        out.push(seg);
    }
    out
}


/// One framed segment as this crate writes it: a 16-bit tag, a 64-bit
/// payload length, the payload.
pub open spec fn frame_bytes(tag: u16, p: Seq<u8>) -> Seq<u8> {
    spec_u16_to_le_bytes(tag) + spec_u64_to_le_bytes(p.len() as u64) + p
}

/// What one framed segment means under a context: the tag's section, the
/// payload bytes, and how many bytes the frame took.
pub open spec fn parse_segment(s: Seq<u8>, ctx: CtxView) -> Result<
    (int, SectionType, Seq<u8>),
    TMFImportError,
> {
    let tused: int = match ctx.stw {
        crate::tmf_importer::SegTypeWidth::U8 => 1,
        crate::tmf_importer::SegTypeWidth::U16 => 2,
    };
    let lused: int = match ctx.slw {
        crate::tmf_importer::SegLenWidth::U32 => 4,
        crate::tmf_importer::SegLenWidth::U64 => 8,
    };
    if s.len() < tused {
        Err(TMFImportError::UnexpectedEnd)
    } else {
        let st = match ctx.stw {
            crate::tmf_importer::SegTypeWidth::U8 => spec_section_from_u16(s[0] as u16),
            crate::tmf_importer::SegTypeWidth::U16 => spec_section_from_u16(
                spec_u16_from_le_bytes(s.take(2)),
            ),
        };
        if s.len() < tused + lused {
            Err(TMFImportError::UnexpectedEnd)
        } else {
            let plen: int = match ctx.slw {
                crate::tmf_importer::SegLenWidth::U32 => spec_u32_from_le_bytes(
                    s.subrange(tused, tused + 4),
                ) as int,
                crate::tmf_importer::SegLenWidth::U64 => spec_u64_from_le_bytes(
                    s.subrange(tused, tused + 8),
                ) as int,
            };
            if s.len() < tused + lused + plen {
                Err(TMFImportError::UnexpectedEnd)
            } else {
                Ok(
                    (
                        tused + lused + plen,
                        st,
                        s.subrange(tused + lused, tused + lused + plen),
                    ),
                )
            }
        }
    }
}

/// What `n` framed segments in a row mean: the tagged payloads in order,
/// and how many bytes they took together.
pub open spec fn parse_seg_list(s: Seq<u8>, n: nat, ctx: CtxView) -> Result<
    (int, Seq<(SectionType, Seq<u8>)>),
    TMFImportError,
>
    decreases n,
{
    if n == 0 {
        Ok((0, Seq::empty()))
    } else {
        match parse_segment(s, ctx) {
            Err(e) => Err(e),
            Ok((u, st, p)) => match parse_seg_list(s.skip(u), (n - 1) as nat, ctx) {
                Err(e) => Err(e),
                Ok((u2, rest)) => Ok((u + u2, seq![(st, p)] + rest)),
            },
        }
    }
}

/// What decoding every framed payload gives: the typed values in order,
/// or the first payload's fault.
pub open spec fn decode_all_spec(frames: Seq<(SectionType, Seq<u8>)>, ctx: CtxView) -> Result<
    Seq<SegValue>,
    TMFImportError,
>
    decreases frames.len(),
{
    if frames.len() == 0 {
        Ok(Seq::empty())
    } else {
        match decode_payload(frames[0].0, frames[0].1, ctx.read_min) {
            Err(e) => Err(e),
            Ok(v) => match decode_all_spec(frames.drop_first(), ctx) {
                Err(e) => Err(e),
                Ok(rest) => Ok(seq![v] + rest),
            },
        }
    }
}

/// What applying the decoded values in their read order gives: the
/// filled mesh, or the first duplicate.
pub open spec fn apply_all(vals: Seq<SegValue>, m: MeshView) -> Result<MeshView, TMFImportError>
    decreases vals.len(),
{
    if vals.len() == 0 {
        Ok(m)
    } else {
        match apply_seg(m, vals[0]) {
            Err(e) => Err(e),
            Ok(m2) => apply_all(vals.drop_first(), m2),
        }
    }
}

/// What one mesh record means: its name, a 16-bit segment count, that
/// many framed segments, each decoded and applied in order to a fresh
/// mesh.
pub open spec fn parse_mesh_bytes(s: Seq<u8>, ctx: CtxView) -> Result<
    (int, MeshView, Seq<char>),
    TMFImportError,
> {
    match parse_string(s) {
        Err(e) => Err(e),
        Ok((n1, name)) => {
            let s2 = s.skip(n1);
            if s2.len() < 2 {
                Err(TMFImportError::UnexpectedEnd)
            } else {
                let count = spec_u16_from_le_bytes(s2.take(2)) as nat;
                match parse_seg_list(s2.skip(2), count, ctx) {
                    Err(e) => Err(e),
                    Ok((u, frames)) => match decode_all_spec(frames, ctx) {
                        Err(e) => Err(e),
                        Ok(vals) => match apply_all(vals, MeshView::empty_view()) {
                            Err(e) => Err(e),
                            Ok(m) => Ok((n1 + 2 + u, m, name)),
                        },
                    },
                }
            }
        },
    }
}

impl EncodedSegment {
    /// Reads one framed segment under the file's context: tag, length,
    /// then exactly that many payload bytes.
    pub fn read(ctx: &TMFImportContext, src: &mut Reader) -> (r: Result<
        EncodedSegment,
        TMFImportError,
    >)
        requires
            old(src).wf(),
        ensures
            final(src).wf(),
            match parse_segment(old(src).remaining(), ctx@) {
                Ok((u, st, p)) => r matches Ok(e) && e@ == (st, p) && final(src).remaining()
                    == old(src).remaining().skip(u),
                Err(e) => r == Err::<EncodedSegment, TMFImportError>(e),
            },
    {
        let seg_type = ctx.stw().read(src)?;
        let ghost s = old(src).remaining();
        let ghost tused: int = match ctx@.stw {
            crate::tmf_importer::SegTypeWidth::U8 => 1,
            crate::tmf_importer::SegTypeWidth::U16 => 2,
        };
        proof {
            assert(src.remaining() =~= s.skip(tused));
            if s.len() >= tused + 4 {
                assert(s.skip(tused).take(4) =~= s.subrange(tused, tused + 4));
            }
            if s.len() >= tused + 8 {
                assert(s.skip(tused).take(8) =~= s.subrange(tused, tused + 8));
            }
        }
        let data_length = ctx.slw().read(src)?;
        let ghost lused: int = match ctx@.slw {
            crate::tmf_importer::SegLenWidth::U32 => 4,
            crate::tmf_importer::SegLenWidth::U64 => 8,
        };
        proof {
            assert(src.remaining() =~= s.skip(tused + lused));
        }
        if data_length > src.remaining_len() as u64 {
            return Err(TMFImportError::UnexpectedEnd);
        }
        let data = match src.read_bytes(data_length as usize) {
            Ok(d) => d,
            Err(e) => {
                return Err(e);
            },
        };
        proof {
            assert(data@ =~= s.subrange(tused + lused, tused + lused + data_length as int));
            assert(src.remaining() =~= s.skip(tused + lused + data_length as int));
        }
        Ok(EncodedSegment { seg_type, data })
    }
}

/// Reads a segment header in the wide legacy form this crate writes: a
/// 16-bit tag and a 64-bit payload length, the length clipped to what a
/// buffer index can address.
pub fn read_segment_header(reader: &mut Reader) -> (r: Result<
    (SectionType, usize),
    TMFImportError,
>)
    requires
        old(reader).wf(),
    ensures
        final(reader).wf(),
        old(reader).remaining().len() >= 10 ==> match r {
            Ok((st, l)) => st == spec_section_from_u16(
                spec_u16_from_le_bytes(old(reader).remaining().take(2)),
            ) && l == spec_u64_from_le_bytes(old(reader).remaining().subrange(2, 10))
                && final(reader).remaining() == old(reader).remaining().skip(10),
            Err(e) => e == TMFImportError::UnexpectedEnd && spec_u64_from_le_bytes(
                old(reader).remaining().subrange(2, 10),
            ) > usize::MAX,
        },
        old(reader).remaining().len() < 10 ==> r == Err::<
            (SectionType, usize),
            TMFImportError,
        >(TMFImportError::UnexpectedEnd),
{
    let tag = reader.read_u16()?;
    let seg_type = SectionType::from_u16(tag);
    let ghost s = old(reader).remaining();
    proof {
        if s.len() >= 10 {
            assert(s.skip(2).take(8) =~= s.subrange(2, 10));
            assert(s.skip(2).skip(8) =~= s.skip(10));
        }
    }
    let data_length = reader.read_u64()?;
    if data_length > usize::MAX as u64 {
        return Err(TMFImportError::UnexpectedEnd);
    }
    Ok((seg_type, data_length as usize))
}


/// The tagged payloads of a list of raw segments.
pub open spec fn frame_views(encs: Seq<EncodedSegment>) -> Seq<(SectionType, Seq<u8>)> {
    Seq::new(encs.len(), |i: int| encs[i]@)
}

/// The values of a list of decoded segments.
pub open spec fn seg_views(segs: Seq<DecodedSegment>) -> Seq<SegValue> {
    Seq::new(segs.len(), |i: int| segs[i]@)
}

/// A parsed segment list has one entry per segment and consumes no more
/// than the input.
pub(crate) proof fn lemma_parse_seg_list_len(s: Seq<u8>, n: nat, ctx: CtxView)
    ensures
        parse_seg_list(s, n, ctx) matches Ok((u, frames)) ==> frames.len() == n && 0 <= u
            <= s.len(),
    decreases n,
{
    if n > 0 {
        match parse_segment(s, ctx) {
            Ok((u1, st, p)) => {
                lemma_parse_seg_list_len(s.skip(u1), (n - 1) as nat, ctx);
            },
            Err(_) => {},
        }
    }
}

/// Decoding a segment list yields one value per segment.
proof fn lemma_decode_all_len(frames: Seq<(SectionType, Seq<u8>)>, ctx: CtxView)
    ensures
        decode_all_spec(frames, ctx) matches Ok(vals) ==> vals.len() == frames.len(),
    decreases frames.len(),
{
    if frames.len() > 0 {
        lemma_decode_all_len(frames.drop_first(), ctx);
    }
}

/// Reads `n` framed segments, buffering each whole payload, exactly as
/// [`parse_seg_list`] says.
#[verifier::loop_isolation(false)]
pub(crate) fn collect_segments(ctx: &TMFImportContext, src: &mut Reader, n: u16) -> (r: Result<
    Vec<EncodedSegment>,
    TMFImportError,
>)
    requires
        old(src).wf(),
    ensures
        final(src).wf(),
        match parse_seg_list(old(src).remaining(), n as nat, ctx@) {
            Ok((u, frames)) => r matches Ok(v) && frame_views(v@) == frames
                && final(src).remaining() == old(src).remaining().skip(u),
            Err(e) => r == Err::<Vec<EncodedSegment>, TMFImportError>(e),
        },
{
    let ghost s0 = old(src).remaining();
    let ghost orig = parse_seg_list(s0, n as nat, ctx@);
    let mut out: Vec<EncodedSegment> = Vec::new();
    let mut k: u16 = 0;
    let ghost mut consumed: int = 0;
    proof {
        lemma_parse_seg_list_len(s0, n as nat, ctx@);
        assert(s0.skip(0) =~= s0);
        match orig {
            Ok((u, frames)) => {
                assert(frames.skip(0) =~= frames);
                assert(frame_views(out@) =~= frames.take(0));
            },
            Err(_) => {},
        }
    }
    while k < n
        invariant
            src.wf(),
            k <= n,
            out@.len() == k,
            src.remaining() == s0.skip(consumed),
            0 <= consumed <= s0.len(),
            orig == parse_seg_list(s0, n as nat, ctx@),
            match orig {
                Ok((u, frames)) => {
                    &&& frames.len() == n
                    &&& 0 <= u <= s0.len()
                    &&& parse_seg_list(src.remaining(), (n - k) as nat, ctx@) == Ok::<
                        (int, Seq<(SectionType, Seq<u8>)>),
                        TMFImportError,
                    >((u - consumed, frames.skip(k as int)))
                    &&& frame_views(out@) == frames.take(k as int)
                },
                Err(e) => parse_seg_list(src.remaining(), (n - k) as nat, ctx@) == Err::<
                    (int, Seq<(SectionType, Seq<u8>)>),
                    TMFImportError,
                >(e),
            },
        decreases n - k,
    {
        let ghost rem = src.remaining();
        let ghost k0 = k as int;
        let ghost c0 = consumed;
        let enc = match EncodedSegment::read(ctx, src) {
            Ok(e) => e,
            Err(e) => {
                proof {
                    match orig {
                        Ok((u, frames)) => {
                            assert(parse_seg_list(rem, (n - k0) as nat, ctx@) is Ok);
                            assert(parse_segment(rem, ctx@) is Ok);
                            assert(false);
                        },
                        Err(e0) => {
                            assert(parse_seg_list(rem, (n - k0) as nat, ctx@) == Err::<
                                (int, Seq<(SectionType, Seq<u8>)>),
                                TMFImportError,
                            >(e0));
                            assert(e == e0);
                        },
                    }
                }
                return Err(e);
            },
        };
        proof {
            let (u1, st, p) = parse_segment(rem, ctx@).unwrap();
            assert(rem.skip(u1) =~= s0.skip(c0 + u1));
            assert(src.remaining() =~= s0.skip(c0 + u1));
            consumed = consumed + u1;
        }
        out.push(enc);
        k = k + 1;
        proof {
            let (u1, st, p) = parse_segment(rem, ctx@).unwrap();
            match orig {
                Ok((u, frames)) => {
                    let sub = parse_seg_list(rem.skip(u1), (n - k0 - 1) as nat, ctx@);
                    assert(sub is Ok);
                    let (u2, rest) = sub.unwrap();
                    assert(seq![(st, p)] + rest == frames.skip(k0));
                    assert((seq![(st, p)] + rest).drop_first() =~= rest);
                    assert(frames.skip(k0).drop_first() =~= frames.skip(k0 + 1));
                    assert(rest == frames.skip(k0 + 1));
                    assert(u2 == u - consumed);
                    assert((seq![(st, p)] + rest)[0] == (st, p));
                    assert(enc@ == frames[k0]);
                    assert(frame_views(out@) =~= frames.take(k as int));
                },
                Err(_) => {},
            }
        }
    }
    proof {
        match orig {
            Ok((u, frames)) => {
                assert(frames.take(k as int) =~= frames);
                assert(consumed == u);
            },
            Err(_) => {
                assert(false);
            },
        }
    }
    Ok(out)
}

/// Decodes buffered segments one after another, exactly as
/// [`decode_all_spec`] says: the first faulty payload ends the mesh.
#[verifier::loop_isolation(false)]
fn decode_frames(encs: Vec<EncodedSegment>, ctx: &TMFImportContext) -> (r: Result<
    Vec<DecodedSegment>,
    TMFImportError,
>)
    ensures
        match decode_all_spec(frame_views(encs@), ctx@) {
            Ok(vals) => r matches Ok(v) && seg_views(v@) == vals,
            Err(e) => r == Err::<Vec<DecodedSegment>, TMFImportError>(e),
        },
{
    let ghost fv = frame_views(encs@);
    let ghost orig = decode_all_spec(fv, ctx@);
    let mut encs = encs;
    let mut out: Vec<DecodedSegment> = Vec::new();
    let ghost n = fv.len();
    proof {
        lemma_decode_all_len(fv, ctx@);
        assert(fv.skip(0) =~= fv);
        match orig {
            Ok(vals) => {
                assert(vals.skip(0) =~= vals);
                assert(seg_views(out@) =~= vals.take(0));
            },
            Err(_) => {},
        }
    }
    while encs.len() > 0
        invariant
            n == fv.len(),
            out@.len() + encs@.len() == n,
            orig == decode_all_spec(fv, ctx@),
            (orig matches Ok(vals) ==> vals.len() == n),
            forall|i: int| 0 <= i < encs@.len() ==> (#[trigger] encs@[i])@ == fv[out@.len() + i],
            match orig {
                Ok(vals) => decode_all_spec(fv.skip(out@.len() as int), ctx@) == Ok::<
                    Seq<SegValue>,
                    TMFImportError,
                >(vals.skip(out@.len() as int)) && seg_views(out@) == vals.take(
                    out@.len() as int,
                ),
                Err(e) => decode_all_spec(fv.skip(out@.len() as int), ctx@) == Err::<
                    Seq<SegValue>,
                    TMFImportError,
                >(e),
            },
        decreases encs@.len(),
    {
        let ghost done = out@.len() as int;
        proof {
            assert(fv.skip(done).len() > 0);
            assert(fv.skip(done)[0] == fv[done]);
            assert(fv.skip(done).drop_first() =~= fv.skip(done + 1));
        }
        let enc = encs.remove(0);
        proof {
            assert(enc@ == fv[done]);
        }
        let dec = match DecodedSegment::decode(enc, ctx) {
            Ok(d) => d,
            Err(e) => {
                proof {
                    match orig {
                        Ok(vals) => {
                            assert(decode_all_spec(fv.skip(done), ctx@) is Ok);
                            assert(decode_payload(fv[done].0, fv[done].1, ctx@.read_min) is Ok);
                            assert(false);
                        },
                        Err(e0) => {
                            assert(decode_all_spec(fv.skip(done), ctx@) == Err::<
                                Seq<SegValue>,
                                TMFImportError,
                            >(e0));
                            assert(e == e0);
                        },
                    }
                }
                return Err(e);
            },
        };
        out.push(dec);
        proof {
            match orig {
                Ok(vals) => {
                    let sub = decode_all_spec(fv.skip(done + 1), ctx@);
                    assert(sub is Ok);
                    let rest = sub.unwrap();
                    assert(seq![dec@] + rest == vals.skip(done));
                    assert((seq![dec@] + rest).drop_first() =~= rest);
                    assert(vals.skip(done).drop_first() =~= vals.skip(done + 1));
                    assert(rest == vals.skip(done + 1));
                    assert((seq![dec@] + rest)[0] == dec@);
                    assert(dec@ == vals[done]);
                    assert(seg_views(out@) =~= vals.take(done + 1));
                },
                Err(_) => {},
            }
        }
    }
    proof {
        match orig {
            Ok(vals) => {
                assert(vals.take(out@.len() as int) =~= vals);
            },
            Err(_) => {
                assert(decode_all_spec(fv.skip(out@.len() as int), ctx@) is Ok);
                assert(false);
            },
        }
    }
    Ok(out)
}

/// Applies decoded segments to a fresh mesh in their read order, exactly
/// as [`apply_all`] says: a repeated attribute kind is fatal.
#[verifier::loop_isolation(false)]
pub(crate) fn apply_frames(vals: Vec<DecodedSegment>) -> (r: Result<TMFMesh, TMFImportError>)
    ensures
        match apply_all(seg_views(vals@), MeshView::empty_view()) {
            Ok(m) => r matches Ok(mesh) && mesh@ == m,
            Err(e) => r == Err::<TMFMesh, TMFImportError>(e),
        },
{
    let ghost vv = seg_views(vals@);
    let ghost orig = apply_all(vv, MeshView::empty_view());
    let mut vals = vals;
    let mut mesh = TMFMesh::empty();
    let ghost n = vv.len();
    proof {
        assert(vv.skip(0) =~= vv);
    }
    while vals.len() > 0
        invariant
            n == vv.len(),
            vals@.len() <= n,
            orig == apply_all(vv, MeshView::empty_view()),
            forall|i: int| 0 <= i < vals@.len() ==> (#[trigger] vals@[i])@ == vv[
                n - vals@.len() + i
            ],
            orig == apply_all(vv.skip(n - vals@.len() as int), mesh@),
        decreases vals@.len(),
    {
        let ghost done = n - vals@.len() as int;
        proof {
            assert(vv.skip(done).len() > 0);
            assert(vv.skip(done)[0] == vv[done]);
            assert(vv.skip(done).drop_first() =~= vv.skip(done + 1));
        }
        let v = vals.remove(0);
        proof {
            assert(v@ == vv[done]);
        }
        let ghost m0 = mesh@;
        match v.apply(&mut mesh) {
            Ok(()) => {
                proof {
                    assert(apply_all(vv.skip(done), m0) == apply_all(vv.skip(done + 1), mesh@));
                }
            },
            Err(e) => {
                proof {
                    assert(apply_all(vv.skip(done), m0) == Err::<MeshView, TMFImportError>(e));
                }
                return Err(e);
            },
        }
    }
    proof {
        assert(vv.skip(n - vals@.len() as int) =~= vv.skip(n as int));
        assert(vv.skip(n as int).len() == 0);
    }
    Ok(mesh)
}

/// Reads one mesh record under a context: name, segment count, buffered
/// segments, decode, then ordered application to a fresh mesh.
pub fn read_mesh_with(ctx: &TMFImportContext, reader: &mut Reader) -> (r: Result<
    (TMFMesh, String),
    TMFImportError,
>)
    requires
        old(reader).wf(),
    ensures
        final(reader).wf(),
        match parse_mesh_bytes(old(reader).remaining(), ctx@) {
            Ok((u, m, name)) => r matches Ok((mesh, nm)) && mesh@ == m && nm@ == name
                && final(reader).remaining() == old(reader).remaining().skip(u),
            Err(e) => r == Err::<(TMFMesh, String), TMFImportError>(e),
        },
{
    let ghost s = old(reader).remaining();
    let name = read_string(reader)?;
    let ghost n1 = parse_string(s).unwrap().0;
    let ghost s2 = s.skip(n1);
    let seg_count = match reader.read_u16() {
        Ok(c) => c,
        Err(e) => {
            return Err(e);
        },
    };
    proof {
        assert(s2.skip(2) =~= s.skip(n1 + 2));
    }
    let encs = match collect_segments(ctx, reader, seg_count) {
        Ok(v) => v,
        Err(e) => {
            return Err(e);
        },
    };
    let ghost u = parse_seg_list(s2.skip(2), seg_count as nat, ctx@).unwrap().0;
    proof {
        lemma_parse_seg_list_len(s2.skip(2), seg_count as nat, ctx@);
        assert(s.skip(n1 + 2).skip(u) =~= s.skip(n1 + 2 + u));
        assert(reader.remaining() =~= s.skip(n1 + 2 + u));
    }
    let decs = match decode_frames(encs, ctx) {
        Ok(v) => v,
        Err(e) => {
            return Err(e);
        },
    };
    let mesh = match apply_frames(decs) {
        Ok(m) => m,
        Err(e) => {
            return Err(e);
        },
    };
    Ok((mesh, name))
}

/// Reads one mesh record in the wide legacy form this crate writes.
pub fn read_mesh(reader: &mut Reader) -> (r: Result<(TMFMesh, String), TMFImportError>)
    requires
        old(reader).wf(),
    ensures
        final(reader).wf(),
        match parse_mesh_bytes(old(reader).remaining(), CtxView::legacy()) {
            Ok((u, m, name)) => r matches Ok((mesh, nm)) && mesh@ == m && nm@ == name
                && final(reader).remaining() == old(reader).remaining().skip(u),
            Err(e) => r == Err::<(TMFMesh, String), TMFImportError>(e),
        },
{
    let ctx = TMFImportContext::legacy();
    read_mesh_with(&ctx, reader)
}


/// What `n` mesh records in a row mean: the meshes with their names, in
/// order, and how many bytes they took together.
pub open spec fn parse_meshes(s: Seq<u8>, n: nat, ctx: CtxView) -> Result<
    (int, Seq<(MeshView, Seq<char>)>),
    TMFImportError,
>
    decreases n,
{
    if n == 0 {
        Ok((0, Seq::empty()))
    } else {
        match parse_mesh_bytes(s, ctx) {
            Err(e) => Err(e),
            Ok((u, m, name)) => match parse_meshes(s.skip(u), (n - 1) as nat, ctx) {
                Err(e) => Err(e),
                Ok((u2, rest)) => Ok((u + u2, seq![(m, name)] + rest)),
            },
        }
    }
}

/// What a whole file means: a validated header, whose minor version picks
/// the widths for everything after it, a 32-bit mesh count, then that
/// many mesh records.
pub open spec fn parse_file(s: Seq<u8>) -> Result<Seq<(MeshView, Seq<char>)>, TMFImportError> {
    match crate::tmf_importer::parse_header(s) {
        Err(e) => Err(e),
        Ok((hu, hdr)) => {
            let s2 = s.skip(hu);
            if s2.len() < 4 {
                Err(TMFImportError::UnexpectedEnd)
            } else {
                let count = spec_u32_from_le_bytes(s2.take(4)) as nat;
                match parse_meshes(s2.skip(4), count, CtxView::of_header(hdr)) {
                    Err(e) => Err(e),
                    Ok((u, list)) => Ok(list),
                }
            }
        },
    }
}

/// A parsed mesh list has one entry per mesh and consumes no more than
/// the input.
pub(crate) proof fn lemma_parse_meshes_len(s: Seq<u8>, n: nat, ctx: CtxView)
    ensures
        parse_meshes(s, n, ctx) matches Ok((u, list)) ==> list.len() == n && 0 <= u <= s.len(),
    decreases n,
{
    if n > 0 {
        match parse_mesh_bytes(s, ctx) {
            Ok((u, m, name)) => {
                lemma_parse_meshes_len(s.skip(u), (n - 1) as nat, ctx);
                lemma_parse_mesh_bytes_used(s, ctx);
            },
            Err(_) => {},
        }
    }
}

/// A parsed mesh record consumes between zero and all of the input.
pub(crate) proof fn lemma_parse_mesh_bytes_used(s: Seq<u8>, ctx: CtxView)
    ensures
        parse_mesh_bytes(s, ctx) matches Ok((u, m, name)) ==> 0 <= u <= s.len(),
{
    match parse_string(s) {
        Ok((n1, _)) => {
            match parse_mesh_bytes(s, ctx) {
                Ok(_) => {
                    lemma_parse_seg_list_len(
                        s.skip(n1).skip(2),
                        spec_u16_from_le_bytes(s.skip(n1).take(2)) as nat,
                        ctx,
                    );
                },
                Err(_) => {},
            }
        },
        Err(_) => {},
    }
}

/// Reads `count` mesh records under a context, exactly as
/// [`parse_meshes`] says.
#[verifier::loop_isolation(false)]
#[verifier::rlimit(60)]
fn read_meshes_with(ctx: &TMFImportContext, reader: &mut Reader, count: u32) -> (r: Result<
    Vec<(TMFMesh, String)>,
    TMFImportError,
>)
    requires
        old(reader).wf(),
    ensures
        final(reader).wf(),
        match parse_meshes(old(reader).remaining(), count as nat, ctx@) {
            Ok((u, list)) => r matches Ok(v) && v@.len() == list.len() && (forall|i: int|
                0 <= i < list.len() ==> ((#[trigger] v@[i]).0@ == list[i].0 && v@[i].1@
                    == list[i].1)),
            Err(e) => r == Err::<Vec<(TMFMesh, String)>, TMFImportError>(e),
        },
{
    let ghost s0 = old(reader).remaining();
    let ghost orig = parse_meshes(s0, count as nat, ctx@);
    let mut out: Vec<(TMFMesh, String)> = Vec::new();
    let mut k: u32 = 0;
    let ghost mut consumed: int = 0;
    proof {
        lemma_parse_meshes_len(s0, count as nat, ctx@);
        assert(s0.skip(0) =~= s0);
        match orig {
            Ok((u, list)) => {
                assert(list.skip(0) =~= list);
            },
            Err(_) => {},
        }
    }
    while k < count
        invariant
            reader.wf(),
            k <= count,
            out@.len() == k,
            reader.remaining() == s0.skip(consumed),
            0 <= consumed <= s0.len(),
            match orig {
                Ok((u, list)) => {
                    &&& list.len() == count
                    &&& parse_meshes(reader.remaining(), (count - k) as nat, ctx@) == Ok::<
                        (int, Seq<(MeshView, Seq<char>)>),
                        TMFImportError,
                    >((u - consumed, list.skip(k as int)))
                    &&& forall|i: int|
                        0 <= i < k ==> ((#[trigger] out@[i]).0@ == list[i].0 && out@[i].1@
                            == list[i].1)
                },
                Err(e) => parse_meshes(reader.remaining(), (count - k) as nat, ctx@) == Err::<
                    (int, Seq<(MeshView, Seq<char>)>),
                    TMFImportError,
                >(e),
            },
        decreases count - k,
    {
        let ghost rem = reader.remaining();
        let ghost k0 = k as int;
        let ghost c0 = consumed;
        let pair = match read_mesh_with(ctx, reader) {
            Ok(p) => p,
            Err(e) => {
                proof {
                    match orig {
                        Ok((u, list)) => {
                            assert(parse_meshes(rem, (count - k0) as nat, ctx@) is Ok);
                            assert(parse_mesh_bytes(rem, ctx@) is Ok);
                            assert(false);
                        },
                        Err(e0) => {
                            assert(parse_meshes(rem, (count - k0) as nat, ctx@) == Err::<
                                (int, Seq<(MeshView, Seq<char>)>),
                                TMFImportError,
                            >(e0));
                            assert(e == e0);
                        },
                    }
                }
                return Err(e);
            },
        };
        proof {
            let (u1, m, name) = parse_mesh_bytes(rem, ctx@).unwrap();
            lemma_parse_mesh_bytes_used(rem, ctx@);
            assert(rem.skip(u1) =~= s0.skip(c0 + u1));
            assert(reader.remaining() =~= s0.skip(c0 + u1));
            consumed = consumed + u1;
        }
        out.push(pair);
        k = k + 1;
        proof {
            let (u1, m, name) = parse_mesh_bytes(rem, ctx@).unwrap();
            match orig {
                Ok((u, list)) => {
                    let sub = parse_meshes(rem.skip(u1), (count - k0 - 1) as nat, ctx@);
                    assert(sub is Ok);
                    let (u2, rest) = sub.unwrap();
                    assert(seq![(m, name)] + rest == list.skip(k0));
                    assert((seq![(m, name)] + rest).drop_first() =~= rest);
                    assert(list.skip(k0).drop_first() =~= list.skip(k0 + 1));
                    assert(rest == list.skip(k0 + 1));
                    assert((seq![(m, name)] + rest)[0] == (m, name));
                    assert(list[k0] == (m, name));
                },
                Err(_) => {},
            }
        }
    }
    proof {
        match orig {
            Ok(_) => {},
            Err(_) => {
                assert(false);
            },
        }
    }
    Ok(out)
}

/// Reads a whole file: validated header, mesh count, then each mesh, in
/// one pass, exactly as [`parse_file`] says. The header's minor version
/// picks the segment field widths for the rest of the file.
pub fn read(reader: &mut Reader) -> (r: Result<Vec<(TMFMesh, String)>, TMFImportError>)
    requires
        old(reader).wf(),
    ensures
        final(reader).wf(),
        match parse_file(old(reader).remaining()) {
            Ok(list) => r matches Ok(v) && v@.len() == list.len() && (forall|i: int|
                0 <= i < list.len() ==> ((#[trigger] v@[i]).0@ == list[i].0 && v@[i].1@
                    == list[i].1)),
            Err(e) => r == Err::<Vec<(TMFMesh, String)>, TMFImportError>(e),
        },
{
    let ghost s = old(reader).remaining();
    let header = crate::tmf_importer::read_tmf_header(reader)?;
    let ghost hu = crate::tmf_importer::parse_header(s).unwrap().0;
    let ghost s2 = s.skip(hu);
    let mesh_count = match reader.read_u32() {
        Ok(c) => c,
        Err(e) => {
            return Err(e);
        },
    };
    proof {
        assert(s2.skip(4) =~= s.skip(hu + 4));
    }
    let ctx = TMFImportContext::init_header(header);
    read_meshes_with(&ctx, reader, mesh_count)
}


/// True when a mesh and name can be written: the name fits its length
/// prefix, every triangle array has its paired attribute array and lands
/// inside it, every component is in the codec's range, and every array
/// fits its count field.
pub open spec fn mesh_exportable(m: MeshView, name: Seq<char>) -> bool {
    &&& encode_utf8(name).len() <= u16::MAX
    &&& (m.vertex_triangles matches Some(ts) ==> m.vertices is Some && crate::vertices::in_bounds(
        ts,
        m.vertices.unwrap().len() as int,
    ))
    &&& (m.normal_triangles matches Some(ts) ==> m.normals is Some && crate::vertices::in_bounds(
        ts,
        m.normals.unwrap().len() as int,
    ))
    &&& (m.uv_triangles matches Some(ts) ==> m.uvs is Some && crate::vertices::in_bounds(
        ts,
        m.uvs.unwrap().len() as int,
    ))
    &&& (m.vertices matches Some(vs) ==> vec3s_in_range(vs) && vs.len() <= u32::MAX)
    &&& (m.normals matches Some(vs) ==> vec3s_in_range(vs) && vs.len() <= u32::MAX)
    &&& (m.uvs matches Some(vs) ==> vec2s_in_range(vs) && vs.len() <= u32::MAX)
    &&& (m.vertex_triangles matches Some(ts) ==> ts.len() <= u32::MAX)
    &&& (m.normal_triangles matches Some(ts) ==> ts.len() <= u32::MAX)
    &&& (m.uv_triangles matches Some(ts) ==> ts.len() <= u32::MAX)
}

/// The relation between a mesh and what actually gets written after the
/// optional normal-pruning pass: everything but the normals is carried
/// through unchanged, and pruning keeps the normal data consistent.
pub open spec fn prune_ok(m: MeshView, p: TMFPrecisionInfo, m2: MeshView) -> bool {
    if p.prune_normals && m.normals is Some && m.normal_triangles is Some {
        &&& m2.vertices == m.vertices
        &&& m2.vertex_triangles == m.vertex_triangles
        &&& m2.uvs == m.uvs
        &&& m2.uv_triangles == m.uv_triangles
        &&& m2.normals is Some
        &&& m2.normal_triangles is Some
        &&& crate::normals::prune_post(
            m.normals.unwrap(),
            m.normal_triangles.unwrap(),
            m2.normals.unwrap(),
            m2.normal_triangles.unwrap(),
            crate::step_of(UNIT as u64, p.normal_precision),
        )
    } else {
        m2 == m
    }
}

/// The bytes of one optional 3-component segment.
pub open spec fn opt_vec3_seg(tag: u16, o: Option<Seq<Vector3>>, step: u64) -> Seq<u8> {
    match o {
        Some(vs) => frame_bytes(tag, vec3_payload(vs, step)),
        None => Seq::empty(),
    }
}

/// The bytes of one optional UV segment.
pub open spec fn opt_vec2_seg(tag: u16, o: Option<Seq<Vector2>>, step: u64) -> Seq<u8> {
    match o {
        Some(vs) => frame_bytes(tag, crate::uv::vec2_payload(vs, step)),
        None => Seq::empty(),
    }
}

/// The bytes of one optional triangle-index segment.
pub open spec fn opt_tri_seg(tag: u16, o: Option<Seq<IndexType>>) -> Seq<u8> {
    match o {
        Some(ts) => frame_bytes(tag, triangles_payload(ts)),
        None => Seq::empty(),
    }
}

/// The present segments of one mesh record in their fixed order,
/// positions quantized to the mesh's shortest edge.
pub open spec fn seg_bytes(m: MeshView, p: TMFPrecisionInfo) -> Seq<u8> {
    opt_vec3_seg(
        1,
        m.vertices,
        crate::step_of(
            spec_shortest_edge(m.vertex_triangles, m.vertices) as u64,
            p.vertex_precision,
        ),
    ) + opt_tri_seg(2, m.vertex_triangles) + opt_vec3_seg(
        3,
        m.normals,
        crate::step_of(UNIT as u64, p.normal_precision),
    ) + opt_tri_seg(4, m.normal_triangles) + opt_vec2_seg(
        5,
        m.uvs,
        crate::step_of(UNIT as u64, p.uv_precision),
    ) + opt_tri_seg(6, m.uv_triangles)
}

/// One mesh record as this crate writes it: name, segment count, then
/// the present segments in their fixed order.
pub open spec fn mesh_bytes(m: MeshView, name: Seq<char>, p: TMFPrecisionInfo) -> Seq<u8> {
    string_bytes(name) + spec_u16_to_le_bytes(m.segment_count() as u16) + seg_bytes(m, p)
}

/// Appends one framed segment: tag, payload length, payload; the scratch
/// buffer is drained for reuse.
fn write_segment_frame(w: &mut Vec<u8>, tag: u16, curr_segment_data: &mut Vec<u8>)
    ensures
        final(w)@ == old(w)@ + frame_bytes(tag, old(curr_segment_data)@),
        final(curr_segment_data)@.len() == 0,
{
    write_u16(w, tag);
    write_u64(w, curr_segment_data.len() as u64);
    w.append(curr_segment_data);
    proof {
        assert(final(w)@ =~= old(w)@ + frame_bytes(tag, old(curr_segment_data)@));
    }
}

/// Writes the position segment, if a position array is present.
pub fn save_vertices(
    vertices: Option<&Vec<Vector3>>,
    w: &mut Vec<u8>,
    curr_segment_data: &mut Vec<u8>,
    p_info: &TMFPrecisionInfo,
    shortest_edge: u64,
)
    requires
        old(curr_segment_data)@.len() == 0,
        match vertices {
            Some(vs) => vs@.len() <= u32::MAX && vec3s_in_range(vs@),
            None => true,
        },
    ensures
        final(curr_segment_data)@.len() == 0,
        final(w)@ == old(w)@ + (match vertices {
            Some(vs) => frame_bytes(
                1,
                vec3_payload(vs@, crate::step_of(shortest_edge, p_info.vertex_precision)),
            ),
            None => Seq::<u8>::empty(),
        }),
{
    match vertices {
        Some(vs) => {
            crate::vertices::save_tmf_vertices(
                vs,
                p_info.vertex_precision,
                curr_segment_data,
                shortest_edge,
            );
            write_segment_frame(w, 1, curr_segment_data);
        },
        None => {
            proof {
                assert(old(w)@ + Seq::<u8>::empty() =~= old(w)@);
            }
        },
    }
}

/// Writes the normal segment, if a normal array is present.
pub fn save_normals(
    normals: Option<&Vec<Vector3>>,
    w: &mut Vec<u8>,
    curr_segment_data: &mut Vec<u8>,
    p_info: &TMFPrecisionInfo,
)
    requires
        old(curr_segment_data)@.len() == 0,
        match normals {
            Some(vs) => vs@.len() <= u32::MAX && vec3s_in_range(vs@),
            None => true,
        },
    ensures
        final(curr_segment_data)@.len() == 0,
        final(w)@ == old(w)@ + (match normals {
            Some(vs) => frame_bytes(
                3,
                vec3_payload(vs@, crate::step_of(UNIT as u64, p_info.normal_precision)),
            ),
            None => Seq::<u8>::empty(),
        }),
{
    match normals {
        Some(vs) => {
            crate::normals::save_normal_array(vs, curr_segment_data, p_info.normal_precision);
            write_segment_frame(w, 3, curr_segment_data);
        },
        None => {
            proof {
                assert(old(w)@ + Seq::<u8>::empty() =~= old(w)@);
            }
        },
    }
}

/// The staged check behind [`write_mesh`]: which fault, if any, makes
/// this mesh unwritable, checked in a fixed order.
pub open spec fn export_fault(m: MeshView, name: Seq<char>) -> TMFExportError {
    if encode_utf8(name).len() > u16::MAX {
        TMFExportError::NameTooLong
    } else if (m.vertex_triangles is Some && m.vertices is None) || (m.normal_triangles is Some
        && m.normals is None) || (m.uv_triangles is Some && m.uvs is None) {
        TMFExportError::TrianglesWithoutAttribute
    } else if !((m.vertex_triangles matches Some(ts) ==> crate::vertices::in_bounds(
        ts,
        m.vertices.unwrap().len() as int,
    )) && (m.normal_triangles matches Some(ts) ==> crate::vertices::in_bounds(
        ts,
        m.normals.unwrap().len() as int,
    )) && (m.uv_triangles matches Some(ts) ==> crate::vertices::in_bounds(
        ts,
        m.uvs.unwrap().len() as int,
    ))) {
        TMFExportError::IndexOutOfBounds
    } else if !((m.vertices matches Some(vs) ==> vec3s_in_range(vs)) && (
    m.normals matches Some(vs) ==> vec3s_in_range(vs)) && (m.uvs matches Some(vs)
        ==> vec2s_in_range(vs))) {
        TMFExportError::CoordOutOfRange
    } else {
        TMFExportError::TooManyItems
    }
}

/// Checks everything [`write_mesh`] needs, in its order, without
/// writing.
fn check_exportable(mesh: &TMFMesh, name: &str) -> (r: Result<(), TMFExportError>)
    ensures
        (r is Ok <==> mesh_exportable(mesh@, name@)),
        (r matches Err(e) ==> e == export_fault(mesh@, name@)),
{
    if name.as_bytes().len() > u16::MAX as usize {
        return Err(TMFExportError::NameTooLong);
    }
    let vt_missing = mesh.get_vertex_triangles().is_some() && mesh.get_vertices().is_none();
    let nt_missing = mesh.get_normal_triangles().is_some() && mesh.get_normals().is_none();
    let ut_missing = mesh.get_uv_triangles().is_some() && mesh.get_uvs().is_none();
    if vt_missing || nt_missing || ut_missing {
        return Err(TMFExportError::TrianglesWithoutAttribute);
    }
    let vt_ok = match mesh.get_vertex_triangles() {
        Some(ts) => crate::vertices::check_in_bounds(ts, mesh.get_vertices().unwrap().len()),
        None => true,
    };
    let nt_ok = match mesh.get_normal_triangles() {
        Some(ts) => crate::vertices::check_in_bounds(ts, mesh.get_normals().unwrap().len()),
        None => true,
    };
    let ut_ok = match mesh.get_uv_triangles() {
        Some(ts) => crate::vertices::check_in_bounds(ts, mesh.get_uvs().unwrap().len()),
        None => true,
    };
    if !(vt_ok && nt_ok && ut_ok) {
        return Err(TMFExportError::IndexOutOfBounds);
    }
    let vr = match mesh.get_vertices() {
        Some(vs) => crate::mesh::check_vec3s_range(vs),
        None => true,
    };
    let nr = match mesh.get_normals() {
        Some(vs) => crate::mesh::check_vec3s_range(vs),
        None => true,
    };
    let ur = match mesh.get_uvs() {
        Some(vs) => crate::mesh::check_vec2s_range(vs),
        None => true,
    };
    if !(vr && nr && ur) {
        return Err(TMFExportError::CoordOutOfRange);
    }
    let c1 = match mesh.get_vertices() {
        Some(vs) => vs.len() <= u32::MAX as usize,
        None => true,
    };
    let c2 = match mesh.get_normals() {
        Some(vs) => vs.len() <= u32::MAX as usize,
        None => true,
    };
    let c3 = match mesh.get_uvs() {
        Some(vs) => vs.len() <= u32::MAX as usize,
        None => true,
    };
    let c4 = match mesh.get_vertex_triangles() {
        Some(ts) => ts.len() <= u32::MAX as usize,
        None => true,
    };
    let c5 = match mesh.get_normal_triangles() {
        Some(ts) => ts.len() <= u32::MAX as usize,
        None => true,
    };
    let c6 = match mesh.get_uv_triangles() {
        Some(ts) => ts.len() <= u32::MAX as usize,
        None => true,
    };
    if !(c1 && c2 && c3 && c4 && c5 && c6) {
        return Err(TMFExportError::TooManyItems);
    }
    Ok(())
}

/// Writes one mesh record: name, segment count, then the present
/// segments in the fixed order, after validating the mesh whole and,
/// when asked, pruning near-duplicate normals. Succeeds exactly on
/// meshes [`mesh_exportable`] accepts; a refused mesh leaves the output
/// untouched and reports the first fault in checking order.
#[verifier::spinoff_prover]
#[verifier::rlimit(100)]
fn write_mesh_body(
    mesh: &TMFMesh,
    pruned_normals: &Option<Vec<Vector3>>,
    pruned_ntris: &Option<Vec<IndexType>>,
    w: &mut Vec<u8>,
    p_info: &TMFPrecisionInfo,
    name: &str,
) -> (r: Result<(), TMFExportError>)
    requires
        mesh_exportable(mesh@, name@),
        prune_ok(
            mesh@,
            *p_info,
            (MeshView {
                normals: match pruned_normals {
                    Some(v) => Some(v@),
                    None => None,
                },
                normal_triangles: match pruned_ntris {
                    Some(v) => Some(v@),
                    None => None,
                },
                ..mesh@
            }),
        ),
    ensures
        r is Ok,
        final(w)@ == old(w)@ + mesh_bytes(
            (MeshView {
                normals: match pruned_normals {
                    Some(v) => Some(v@),
                    None => None,
                },
                normal_triangles: match pruned_ntris {
                    Some(v) => Some(v@),
                    None => None,
                },
                ..mesh@
            }),
            name@,
            *p_info,
        ),
{
    let ghost m2 = MeshView {
        normals: match pruned_normals {
            Some(v) => Some(v@),
            None => None,
        },
        normal_triangles: match pruned_ntris {
            Some(v) => Some(v@),
            None => None,
        },
        ..mesh@
    };
    proof {
        assert(m2.segment_count() == mesh@.segment_count());
    }
    let ghost vstep = crate::step_of(
        spec_shortest_edge(m2.vertex_triangles, m2.vertices) as u64,
        p_info.vertex_precision,
    );
    let ghost b1 = opt_vec3_seg(1, m2.vertices, vstep);
    let ghost b2 = opt_tri_seg(2, m2.vertex_triangles);
    let ghost b3 = opt_vec3_seg(3, m2.normals, crate::step_of(UNIT as u64, p_info.normal_precision));
    let ghost b4 = opt_tri_seg(4, m2.normal_triangles);
    let ghost b5 = opt_vec2_seg(5, m2.uvs, crate::step_of(UNIT as u64, p_info.uv_precision));
    let ghost b6 = opt_tri_seg(6, m2.uv_triangles);
    match write_string(w, name) {
        Ok(()) => {},
        Err(_) => {
            proof {
                assert(false);
            }
            return Err(TMFExportError::NameTooLong);
        },
    }
    write_u16(w, mesh.get_segment_count());
    let ghost w0 = w@;
    proof {
        assert(w0 =~= old(w)@ + string_bytes(name@) + spec_u16_to_le_bytes(
            m2.segment_count() as u16,
        ));
    }
    let mut curr_segment_data: Vec<u8> = Vec::new();
    let shortest_edge = match calc_shortest_edge(mesh.get_vertex_triangles(), mesh.get_vertices())
        {
        Ok(se) => se,
        Err(e) => {
            proof {
                assert(false);
            }
            return Err(e);
        },
    };
    save_vertices(mesh.get_vertices(), w, &mut curr_segment_data, p_info, shortest_edge);
    let ghost w1 = w@;
    proof {
        assert(w1 =~= w0 + b1);
    }
    match mesh.get_vertex_triangles() {
        Some(ts) => {
            let v_count = mesh.get_vertices().unwrap().len();
            match crate::vertices::save_triangles(ts, v_count, &mut curr_segment_data) {
                Ok(()) => {},
                Err(e) => {
                    proof {
                        assert(false);
                    }
                    return Err(e);
                },
            }
            write_segment_frame(w, 2, &mut curr_segment_data);
        },
        None => {},
    }
    let ghost w2 = w@;
    proof {
        assert(w2 =~= w1 + b2);
    }
    save_normals(
        match pruned_normals {
            Some(v) => Some(v),
            None => None,
        },
        w,
        &mut curr_segment_data,
        p_info,
    );
    let ghost w3 = w@;
    proof {
        assert(w3 =~= w2 + b3);
    }
    match pruned_ntris {
        Some(ts) => {
            let n_count = pruned_normals.as_ref().unwrap().len();
            match crate::vertices::save_triangles(ts, n_count, &mut curr_segment_data) {
                Ok(()) => {},
                Err(e) => {
                    proof {
                        assert(false);
                    }
                    return Err(e);
                },
            }
            write_segment_frame(w, 4, &mut curr_segment_data);
        },
        None => {},
    }
    let ghost w4 = w@;
    proof {
        assert(w4 =~= w3 + b4);
    }
    match mesh.get_uvs() {
        Some(uvs) => {
            crate::uv::save_uvs(uvs, &mut curr_segment_data, p_info.uv_precision);
            write_segment_frame(w, 5, &mut curr_segment_data);
        },
        None => {},
    }
    let ghost w5 = w@;
    proof {
        assert(w5 =~= w4 + b5);
    }
    match mesh.get_uv_triangles() {
        Some(ts) => {
            let uv_count = mesh.get_uvs().unwrap().len();
            match crate::vertices::save_triangles(ts, uv_count, &mut curr_segment_data) {
                Ok(()) => {},
                Err(e) => {
                    proof {
                        assert(false);
                    }
                    return Err(e);
                },
            }
            write_segment_frame(w, 6, &mut curr_segment_data);
        },
        None => {},
    }
    proof {
        assert(final(w)@ =~= w5 + b6);
        assert(seg_bytes(m2, *p_info) == b1 + b2 + b3 + b4 + b5 + b6);
        assert(final(w)@ =~= old(w)@ + string_bytes(name@) + spec_u16_to_le_bytes(
            m2.segment_count() as u16,
        ) + seg_bytes(m2, *p_info));
        assert(final(w)@ =~= old(w)@ + mesh_bytes(m2, name@, *p_info));
    }
    Ok(())
}

/// Writes one mesh record: name, segment count, then the present
/// segments in the fixed order, after validating the mesh whole and,
/// when asked, pruning near-duplicate normals. Succeeds exactly on
/// meshes [`mesh_exportable`] accepts; a refused mesh leaves the output
/// untouched and reports the first fault in checking order.
pub fn write_mesh(mesh: &TMFMesh, w: &mut Vec<u8>, p_info: &TMFPrecisionInfo, name: &str) -> (r:
    Result<(), TMFExportError>)
    ensures
        (r is Ok <==> mesh_exportable(mesh@, name@)),
        (r matches Err(e) ==> e == export_fault(mesh@, name@) && final(w)@ == old(w)@),
        r is Ok ==> exists|m2: MeshView|
            #[trigger] prune_ok(mesh@, *p_info, m2) && final(w)@ == old(w)@ + mesh_bytes(
                m2,
                name@,
                *p_info,
            ),
{
    match check_exportable(mesh, name) {
        Ok(()) => {},
        Err(e) => {
            return Err(e);
        },
    }
    let (pruned_normals, pruned_ntris): (Option<Vec<Vector3>>, Option<Vec<IndexType>>) = if p_info.prune_normals
        && mesh.get_normals().is_some() && mesh.get_normal_triangles().is_some() {
        let mut ns = slice_to_vec(mesh.get_normals().unwrap().as_slice());
        let mut nt = slice_to_vec(mesh.get_normal_triangles().unwrap().as_slice());
        crate::normals::map_prune(&mut ns, &mut nt, 0x100_0000, p_info);
        (Some(ns), Some(nt))
    } else {
        let ns = match mesh.get_normals() {
            Some(v) => Some(slice_to_vec(v.as_slice())),
            None => None,
        };
        let nt = match mesh.get_normal_triangles() {
            Some(v) => Some(slice_to_vec(v.as_slice())),
            None => None,
        };
        (ns, nt)
    };
    let ghost m2 = MeshView {
        normals: match &pruned_normals {
            Some(v) => Some(v@),
            None => None,
        },
        normal_triangles: match &pruned_ntris {
            Some(v) => Some(v@),
            None => None,
        },
        ..mesh@
    };
    proof {
        assert(prune_ok(mesh@, *p_info, m2));
    }
    match write_mesh_body(mesh, &pruned_normals, &pruned_ntris, w, p_info, name) {
        Ok(()) => {},
        Err(e) => {
            proof {
                assert(false);
            }
            return Err(e);
        },
    }
    Ok(())
}

/// True when the writer's output is the header and the mesh records of
/// the pruned meshes `ms`, appended to what was in the buffer before.
pub open spec fn write_output_ok(
    pairs: Seq<(TMFMesh, String)>,
    p: TMFPrecisionInfo,
    ms: Seq<MeshView>,
    old_w: Seq<u8>,
    new_w: Seq<u8>,
) -> bool {
    &&& ms.len() == pairs.len()
    &&& (forall|i: int| 0 <= i < ms.len() ==> prune_ok((#[trigger] pairs[i]).0@, p, ms[i]))
    &&& new_w == old_w + header_bytes(pairs.len() as u32) + meshes_bytes(
        Seq::new(ms.len(), |i: int| (ms[i], pairs[i].1@)),
        p,
    )
}

/// The mesh records of a file, one after another.
pub open spec fn meshes_bytes(list: Seq<(MeshView, Seq<char>)>, p: TMFPrecisionInfo) -> Seq<u8>
    decreases list.len(),
{
    if list.len() == 0 {
        Seq::empty()
    } else {
        meshes_bytes(list.drop_last(), p) + mesh_bytes(list.last().0, list.last().1, p)
    }
}

/// Writes a whole file: the header, then every mesh with its name.
/// Succeeds exactly when the mesh count fits its field and every mesh is
/// writable; a refused input leaves the output untouched.
#[verifier::loop_isolation(false)]
#[verifier::rlimit(60)]
pub fn write(
    meshes_names: &Vec<(TMFMesh, String)>,
    w: &mut Vec<u8>,
    p_info: &TMFPrecisionInfo,
) -> (r: Result<(), TMFExportError>)
    ensures
        (r is Ok <==> meshes_names@.len() <= u32::MAX && (forall|i: int|
            0 <= i < meshes_names@.len() ==> mesh_exportable(
                (#[trigger] meshes_names@[i]).0@,
                meshes_names@[i].1@,
            ))),
        r is Err ==> final(w)@ == old(w)@,
        r is Ok ==> exists|ms: Seq<MeshView>|
            #[trigger] write_output_ok(meshes_names@, *p_info, ms, old(w)@, final(w)@),
{
    if meshes_names.len() > u32::MAX as usize {
        return Err(TMFExportError::TooManyMeshes);
    }
    let mut i: usize = 0;
    while i < meshes_names.len()
        invariant
            i <= meshes_names@.len(),
            forall|k: int|
                0 <= k < i ==> mesh_exportable(
                    (#[trigger] meshes_names@[k]).0@,
                    meshes_names@[k].1@,
                ),
        decreases meshes_names@.len() - i,
    {
        let pair = &meshes_names[i];
        match check_exportable(&pair.0, pair.1.as_str()) {
            Ok(()) => {},
            Err(e) => {
                return Err(e);
            },
        }
        i = i + 1;
    }
    write_tmf_header(w, meshes_names.len() as u32);
    let ghost base = w@;
    let ghost mut pruned: Seq<MeshView> = Seq::empty();
    let mut k: usize = 0;
    proof {
        assert(Seq::new(0, |i: int| (pruned[i], meshes_names@[i].1@)) =~= Seq::<
            (MeshView, Seq<char>),
        >::empty());
    }
    while k < meshes_names.len()
        invariant
            k <= meshes_names@.len(),
            pruned.len() == k,
            forall|i: int|
                0 <= i < k ==> prune_ok((#[trigger] meshes_names@[i]).0@, *p_info, pruned[i]),
            w@ == base + meshes_bytes(
                Seq::new(k as nat, |i: int| (pruned[i], meshes_names@[i].1@)),
                *p_info,
            ),
        decreases meshes_names@.len() - k,
    {
        let pair = &meshes_names[k];
        let ghost w_before = w@;
        match write_mesh(&pair.0, w, p_info, pair.1.as_str()) {
            Ok(()) => {},
            Err(e) => {
                proof {
                    assert(false);
                }
                return Err(e);
            },
        }
        proof {
            let prev = pruned;
            let prevseq = Seq::new(k as nat, |i: int| (prev[i], meshes_names@[i].1@));
            let m2 = choose|m2: MeshView|
                #[trigger] prune_ok(pair.0@, *p_info, m2) && w@ == w_before + mesh_bytes(
                    m2,
                    pair.1@,
                    *p_info,
                );
            pruned = pruned.push(m2);
            let cur = Seq::new((k + 1) as nat, |i: int| (pruned[i], meshes_names@[i].1@));
            assert(cur.drop_last() =~= prevseq);
            assert(cur.last() == (m2, meshes_names@[k as int].1@));
            assert(w@ =~= base + meshes_bytes(cur, *p_info));
        }
        k = k + 1;
    }
    proof {
        assert(write_output_ok(meshes_names@, *p_info, pruned, old(w)@, w@));
    }
    Ok(())
}


/// What a written mesh decodes back to: triangle-index arrays exactly as
/// they were, every attribute component moved down by less than one
/// quantization step, presence untouched.
pub open spec fn decoded_mesh(m: MeshView, p: TMFPrecisionInfo) -> MeshView {
    let vstep = crate::step_of(
        spec_shortest_edge(m.vertex_triangles, m.vertices) as u64,
        p.vertex_precision,
    );
    let nstep = crate::step_of(UNIT as u64, p.normal_precision);
    let ustep = crate::step_of(UNIT as u64, p.uv_precision);
    MeshView {
        vertices: match m.vertices {
            Some(vs) => Some(
                Seq::new(vs.len(), |i: int| crate::vertices::quant_trip3(vs[i], vstep)),
            ),
            None => None,
        },
        vertex_triangles: m.vertex_triangles,
        normals: match m.normals {
            Some(vs) => Some(
                Seq::new(vs.len(), |i: int| crate::vertices::quant_trip3(vs[i], nstep)),
            ),
            None => None,
        },
        normal_triangles: m.normal_triangles,
        uvs: match m.uvs {
            Some(vs) => Some(Seq::new(vs.len(), |i: int| crate::uv::quant_trip2(vs[i], ustep))),
            None => None,
        },
        uv_triangles: m.uv_triangles,
    }
}

/// The step this crate derives always lies in the range payloads accept.
proof fn lemma_step_bounds(reference: u64, precision: u32)
    ensures
        1 <= crate::step_of(reference, precision) <= crate::STEP_LIMIT,
{
}

/// A name's wire form parses back to exactly that name.
proof fn lemma_string_round_trip(name: Seq<char>, rest: Seq<u8>)
    requires
        encode_utf8(name).len() <= u16::MAX,
    ensures
        parse_string(string_bytes(name) + rest) == Ok::<(int, Seq<char>), TMFImportError>(
            (string_bytes(name).len() as int, name),
        ),
        string_bytes(name).len() == 2 + encode_utf8(name).len(),
{
    broadcast use vstd::utf8::group_utf8_lib;

    lemma_auto_spec_u16_to_from_le_bytes();
    let s = string_bytes(name) + rest;
    let eb = encode_utf8(name);
    assert(s.take(2) =~= spec_u16_to_le_bytes(eb.len() as u16));
    assert(s.subrange(2, 2 + eb.len() as int) =~= eb);
    assert(vstd::utf8::valid_utf8(eb));
    assert(decode_utf8(eb) == name);
}

/// One framed segment in the wide legacy form parses back to its tag's
/// section and its payload.
proof fn lemma_frame_round_trip(tag: u16, p: Seq<u8>, rest: Seq<u8>)
    requires
        p.len() <= u64::MAX,
    ensures
        parse_segment(frame_bytes(tag, p) + rest, CtxView::legacy()) == Ok::<
            (int, SectionType, Seq<u8>),
            TMFImportError,
        >((10 + p.len() as int, spec_section_from_u16(tag), p)),
        frame_bytes(tag, p).len() == 10 + p.len(),
{
    lemma_auto_spec_u16_to_from_le_bytes();
    vstd::bytes::lemma_auto_spec_u64_to_from_le_bytes();
    let s = frame_bytes(tag, p) + rest;
    assert(s.take(2) =~= spec_u16_to_le_bytes(tag));
    assert(s.subrange(2, 10) =~= spec_u64_to_le_bytes(p.len() as u64));
    assert(s.subrange(10, 10 + p.len() as int) =~= p);
}

/// Appending one present segment to a parsed segment list parses as the
/// longer list.
proof fn lemma_seg_list_cons(
    tag: u16,
    p: Seq<u8>,
    suffix: Seq<u8>,
    n: nat,
    u: int,
    fr: Seq<(SectionType, Seq<u8>)>,
)
    requires
        p.len() <= u64::MAX,
        parse_seg_list(suffix, n, CtxView::legacy()) == Ok::<
            (int, Seq<(SectionType, Seq<u8>)>),
            TMFImportError,
        >((u, fr)),
    ensures
        parse_seg_list(frame_bytes(tag, p) + suffix, (n + 1) as nat, CtxView::legacy()) == Ok::<
            (int, Seq<(SectionType, Seq<u8>)>),
            TMFImportError,
        >(
            (
                10 + p.len() + u,
                seq![(spec_section_from_u16(tag), p)] + fr,
            ),
        ),
{
    lemma_frame_round_trip(tag, p, suffix);
    let s = frame_bytes(tag, p) + suffix;
    assert(s.skip(10 + p.len() as int) =~= suffix);
}

/// Appending one decodable payload to a decoded list decodes as the
/// longer list.
proof fn lemma_decode_cons(
    st: SectionType,
    pay: Seq<u8>,
    fr: Seq<(SectionType, Seq<u8>)>,
    v: SegValue,
    vs: Seq<SegValue>,
)
    requires
        decode_payload(st, pay, false) == Ok::<SegValue, TMFImportError>(v),
        decode_all_spec(fr, CtxView::legacy()) == Ok::<Seq<SegValue>, TMFImportError>(vs),
    ensures
        decode_all_spec(seq![(st, pay)] + fr, CtxView::legacy()) == Ok::<
            Seq<SegValue>,
            TMFImportError,
        >(seq![v] + vs),
{
    assert((seq![(st, pay)] + fr)[0] == (st, pay));
    assert((seq![(st, pay)] + fr).drop_first() =~= fr);
}

/// The bytes of the optional segment in slot `k`.
pub open spec fn slot_bytes(m: MeshView, p: TMFPrecisionInfo, k: int) -> Seq<u8> {
    if k == 0 {
        opt_vec3_seg(
            1,
            m.vertices,
            crate::step_of(
                spec_shortest_edge(m.vertex_triangles, m.vertices) as u64,
                p.vertex_precision,
            ),
        )
    } else if k == 1 {
        opt_tri_seg(2, m.vertex_triangles)
    } else if k == 2 {
        opt_vec3_seg(3, m.normals, crate::step_of(UNIT as u64, p.normal_precision))
    } else if k == 3 {
        opt_tri_seg(4, m.normal_triangles)
    } else if k == 4 {
        opt_vec2_seg(5, m.uvs, crate::step_of(UNIT as u64, p.uv_precision))
    } else {
        opt_tri_seg(6, m.uv_triangles)
    }
}

/// The bytes of the segments in slots `k` and later.
pub open spec fn segs_from(m: MeshView, p: TMFPrecisionInfo, k: int) -> Seq<u8>
    decreases 6 - k,
{
    if k < 0 || k >= 6 {
        Seq::empty()
    } else {
        slot_bytes(m, p, k) + segs_from(m, p, k + 1)
    }
}

/// How many of the slots `k` and later are present.
pub open spec fn count_from(m: MeshView, p: TMFPrecisionInfo, k: int) -> nat
    decreases 6 - k,
{
    if k < 0 || k >= 6 {
        0
    } else {
        (if slot_val(m, p, k) is Some {
            1nat
        } else {
            0nat
        }) + count_from(m, p, k + 1)
    }
}

/// The written segments from slot `k` on parse back, segment for
/// segment, and decode to the mesh's values from slot `k` on.
#[verifier::spinoff_prover]
#[verifier::rlimit(100)]
proof fn lemma_segs_from_round_trip(m: MeshView, p: TMFPrecisionInfo, k: int, rest: Seq<u8>)
    requires
        mesh_exportable(m, Seq::empty()),
        0 <= k <= 6,
    ensures
        ({
            let r = parse_seg_list(
                segs_from(m, p, k) + rest,
                count_from(m, p, k),
                CtxView::legacy(),
            );
            &&& r is Ok
            &&& r.unwrap().0 == segs_from(m, p, k).len()
            &&& decode_all_spec(r.unwrap().1, CtxView::legacy()) == Ok::<
                Seq<SegValue>,
                TMFImportError,
            >(vals_from(m, p, k))
        }),
    decreases 6 - k,
{
    let ctx = CtxView::legacy();
    if k == 6 {
        assert(segs_from(m, p, 6) + rest =~= rest);
        assert(vals_from(m, p, 6) =~= Seq::<SegValue>::empty());
        assert(decode_all_spec(Seq::empty(), ctx) == Ok::<Seq<SegValue>, TMFImportError>(
            Seq::empty(),
        ));
    } else {
        lemma_segs_from_round_trip(m, p, k + 1, rest);
        let tail = segs_from(m, p, k + 1) + rest;
        let rsub = parse_seg_list(tail, count_from(m, p, k + 1), ctx);
        let (usub, frsub) = rsub.unwrap();
        let valsub = vals_from(m, p, k + 1);
        match slot_val(m, p, k) {
            None => {
                assert(slot_bytes(m, p, k) =~= Seq::<u8>::empty());
                assert(segs_from(m, p, k) + rest =~= tail);
                assert(segs_from(m, p, k) =~= segs_from(m, p, k + 1));
                assert(count_from(m, p, k) == count_from(m, p, k + 1));
                assert(vals_from(m, p, k) =~= valsub);
            },
            Some(v) => {
                let (tag, pay, st): (u16, Seq<u8>, SectionType) = if k == 0 {
                    let vs = m.vertices.unwrap();
                    let step = crate::step_of(
                        spec_shortest_edge(m.vertex_triangles, m.vertices) as u64,
                        p.vertex_precision,
                    );
                    crate::vertices::lemma_vec3_values_len(vs, step);
                    assert(12 + 24 * vs.len() <= u64::MAX) by (nonlinear_arith)
                        requires
                            vs.len() <= u32::MAX,
                    ;
                    crate::vertices::lemma_vec3_codec_trip(vs, step);
                    (1u16, vec3_payload(vs, step), SectionType::VertexSegment)
                } else if k == 1 {
                    let ts = m.vertex_triangles.unwrap();
                    crate::vertices::lemma_tri_payload_len(ts);
                    crate::vertices::lemma_triangles_codec_trip(ts);
                    (2u16, triangles_payload(ts), SectionType::VertexTriangleSegment)
                } else if k == 2 {
                    let vs = m.normals.unwrap();
                    let step = crate::step_of(UNIT as u64, p.normal_precision);
                    crate::vertices::lemma_vec3_values_len(vs, step);
                    assert(12 + 24 * vs.len() <= u64::MAX) by (nonlinear_arith)
                        requires
                            vs.len() <= u32::MAX,
                    ;
                    crate::vertices::lemma_vec3_codec_trip(vs, step);
                    (3u16, vec3_payload(vs, step), SectionType::NormalSegment)
                } else if k == 3 {
                    let ts = m.normal_triangles.unwrap();
                    crate::vertices::lemma_tri_payload_len(ts);
                    crate::vertices::lemma_triangles_codec_trip(ts);
                    (4u16, triangles_payload(ts), SectionType::NormalTriangleSegment)
                } else if k == 4 {
                    let vs = m.uvs.unwrap();
                    let step = crate::step_of(UNIT as u64, p.uv_precision);
                    crate::uv::lemma_vec2_values_len(vs, step);
                    assert(12 + 16 * vs.len() <= u64::MAX) by (nonlinear_arith)
                        requires
                            vs.len() <= u32::MAX,
                    ;
                    crate::uv::lemma_vec2_codec_trip(vs, step);
                    (5u16, crate::uv::vec2_payload(vs, step), SectionType::UvSegment)
                } else {
                    let ts = m.uv_triangles.unwrap();
                    crate::vertices::lemma_tri_payload_len(ts);
                    crate::vertices::lemma_triangles_codec_trip(ts);
                    (6u16, triangles_payload(ts), SectionType::UvTriangleSegment)
                };
                assert(slot_bytes(m, p, k) == frame_bytes(tag, pay));
                assert(st == spec_section_from_u16(tag));
                assert(decode_payload(st, pay, false) == Ok::<SegValue, TMFImportError>(v));
                lemma_frame_round_trip(tag, pay, tail);
                lemma_seg_list_cons(tag, pay, tail, count_from(m, p, k + 1), usub, frsub);
                lemma_decode_cons(st, pay, frsub, v, valsub);
                assert(segs_from(m, p, k) + rest =~= frame_bytes(tag, pay) + tail);
                assert(count_from(m, p, k) == count_from(m, p, k + 1) + 1);
                assert(vals_from(m, p, k) =~= seq![v] + valsub);
            },
        }
    }
}

/// The written segments of a mesh parse back, segment for segment, and
/// decode to the mesh's values.
#[verifier::spinoff_prover]
#[verifier::rlimit(100)]
proof fn lemma_segments_round_trip(m: MeshView, p: TMFPrecisionInfo, rest: Seq<u8>)
    requires
        mesh_exportable(m, Seq::empty()),
    ensures
        ({
            let r = parse_seg_list(
                seg_bytes(m, p) + rest,
                m.segment_count() as nat,
                CtxView::legacy(),
            );
            &&& r is Ok
            &&& r.unwrap().0 == seg_bytes(m, p).len()
            &&& decode_all_spec(r.unwrap().1, CtxView::legacy()) == Ok::<
                Seq<SegValue>,
                TMFImportError,
            >(mesh_vals(m, p))
        }),
{
    lemma_segs_from_round_trip(m, p, 0, rest);
    assert(seg_bytes(m, p) =~= segs_from(m, p, 0)) by {
        reveal_with_fuel(segs_from, 8);
    }
    assert(m.segment_count() == count_from(m, p, 0)) by {
        reveal_with_fuel(count_from, 8);
    }
    assert(seg_bytes(m, p) + rest =~= segs_from(m, p, 0) + rest);
}

/// A mesh written by this crate reads back: same name, same triangle
/// indices, every attribute component within one quantization step, and
/// so the same attribute arrays present. This is the codec's round-trip
/// guarantee at the level of one mesh record.
#[verifier::spinoff_prover]
#[verifier::rlimit(100)]
pub proof fn lemma_mesh_round_trip(m: MeshView, name: Seq<char>, p: TMFPrecisionInfo, rest: Seq<u8>)
    requires
        mesh_exportable(m, name),
    ensures
        parse_mesh_bytes(mesh_bytes(m, name, p) + rest, CtxView::legacy()) == Ok::<
            (int, MeshView, Seq<char>),
            TMFImportError,
        >((mesh_bytes(m, name, p).len() as int, decoded_mesh(m, p), name)),
        decoded_mesh(m, p).same_presence(m),
{
    let ctx = CtxView::legacy();
    let count_bytes = spec_u16_to_le_bytes(m.segment_count() as u16);
    let suffix = seg_bytes(m, p) + rest;
    let s = mesh_bytes(m, name, p) + rest;
    assert(mesh_exportable(m, Seq::empty())) by {
        broadcast use vstd::utf8::group_utf8_lib;

        assert(encode_utf8(Seq::<char>::empty()).len() == 0);
    }
    lemma_segments_round_trip(m, p, rest);
    lemma_string_round_trip(name, count_bytes + suffix);
    let sb = string_bytes(name);
    assert(s =~= sb + (count_bytes + suffix));
    let s2 = s.skip(sb.len() as int);
    assert(s2 =~= count_bytes + suffix);
    lemma_auto_spec_u16_to_from_le_bytes();
    assert(s2.take(2) =~= count_bytes);
    assert(s2.skip(2) =~= suffix);
    assert(0 <= m.segment_count() <= 6);
    assert(spec_u16_from_le_bytes(s2.take(2)) == m.segment_count() as u16);
    let r = parse_seg_list(suffix, m.segment_count() as nat, ctx);
    assert(r is Ok);
    let md = decoded_mesh(m, p);
    assert(apply_all(mesh_vals(m, p), MeshView::empty_view()) == Ok::<
        MeshView,
        TMFImportError,
    >(md)) by {
        lemma_apply_chain(m, p, mesh_vals(m, p));
    }
    assert(mesh_bytes(m, name, p).len() == sb.len() + 2 + seg_bytes(m, p).len());
}

/// Applying the decoded values of a written mesh to a fresh mesh fills
/// exactly the fields the mesh had.
proof fn lemma_apply_chain(m: MeshView, p: TMFPrecisionInfo, vals: Seq<SegValue>)
    requires
        vals == mesh_vals(m, p),
    ensures
        apply_all(vals, MeshView::empty_view()) == Ok::<MeshView, TMFImportError>(
            decoded_mesh(m, p),
        ),
{
    lemma_apply_chain_helper(m, p);
}

/// The decoded values of a written mesh, front to back.
pub open spec fn mesh_vals(m: MeshView, p: TMFPrecisionInfo) -> Seq<SegValue> {
    vals_from(m, p, 0)
}

/// Applies the six optional values one after another.
proof fn lemma_apply_chain_helper(m: MeshView, p: TMFPrecisionInfo)
    ensures
        apply_all(mesh_vals(m, p), MeshView::empty_view()) == Ok::<MeshView, TMFImportError>(
            decoded_mesh(m, p),
        ),
{
    assert(partial_mesh(m, p, 0) == MeshView::empty_view());
    lemma_apply_suffix(m, p, MeshView::empty_view(), 0);
}

/// The suffix of the value list starting at slot `k`, applied to a mesh
/// whose fields before slot `k` are the decoded ones and after are
/// empty, completes the decoded mesh. Slots: vertices, vertex triangles,
/// normals, normal triangles, uvs, uv triangles.
proof fn lemma_apply_suffix(m: MeshView, p: TMFPrecisionInfo, cur: MeshView, k: int)
    requires
        0 <= k <= 6,
        cur == partial_mesh(m, p, k),
    ensures
        apply_all(vals_from(m, p, k), cur) == Ok::<MeshView, TMFImportError>(decoded_mesh(m, p)),
    decreases 6 - k,
{
    if k == 6 {
        assert(vals_from(m, p, 6) =~= Seq::<SegValue>::empty());
        assert(partial_mesh(m, p, 6) == decoded_mesh(m, p));
    } else {
        let head = slot_val(m, p, k);
        match head {
            Some(v) => {
                assert(vals_from(m, p, k) =~= seq![v] + vals_from(m, p, k + 1));
                assert(apply_seg(cur, v) == Ok::<MeshView, TMFImportError>(
                    partial_mesh(m, p, k + 1),
                ));
                assert((seq![v] + vals_from(m, p, k + 1)).drop_first() =~= vals_from(
                    m,
                    p,
                    k + 1,
                ));
                lemma_apply_suffix(m, p, partial_mesh(m, p, k + 1), k + 1);
            },
            None => {
                assert(vals_from(m, p, k) =~= vals_from(m, p, k + 1));
                assert(partial_mesh(m, p, k) == partial_mesh(m, p, k + 1));
                lemma_apply_suffix(m, p, cur, k + 1);
            },
        }
    }
}

/// The decoded value of slot `k`, when the mesh has that attribute.
pub open spec fn slot_val(m: MeshView, p: TMFPrecisionInfo, k: int) -> Option<SegValue> {
    let vstep = crate::step_of(
        spec_shortest_edge(m.vertex_triangles, m.vertices) as u64,
        p.vertex_precision,
    );
    let nstep = crate::step_of(UNIT as u64, p.normal_precision);
    let ustep = crate::step_of(UNIT as u64, p.uv_precision);
    if k == 0 {
        match m.vertices {
            Some(vs) => Some(
                SegValue::Verts(
                    Seq::new(vs.len(), |i: int| crate::vertices::quant_trip3(vs[i], vstep)),
                ),
            ),
            None => None,
        }
    } else if k == 1 {
        match m.vertex_triangles {
            Some(ts) => Some(SegValue::TriVerts(ts)),
            None => None,
        }
    } else if k == 2 {
        match m.normals {
            Some(vs) => Some(
                SegValue::Norms(
                    Seq::new(vs.len(), |i: int| crate::vertices::quant_trip3(vs[i], nstep)),
                ),
            ),
            None => None,
        }
    } else if k == 3 {
        match m.normal_triangles {
            Some(ts) => Some(SegValue::TriNorms(ts)),
            None => None,
        }
    } else if k == 4 {
        match m.uvs {
            Some(vs) => Some(
                SegValue::Uvs(
                    Seq::new(vs.len(), |i: int| crate::uv::quant_trip2(vs[i], ustep)),
                ),
            ),
            None => None,
        }
    } else {
        match m.uv_triangles {
            Some(ts) => Some(SegValue::TriUvs(ts)),
            None => None,
        }
    }
}

/// The decoded values of slots `k` and later, in order.
pub open spec fn vals_from(m: MeshView, p: TMFPrecisionInfo, k: int) -> Seq<SegValue>
    decreases 6 - k,
{
    if k < 0 || k >= 6 {
        Seq::empty()
    } else {
        (match slot_val(m, p, k) {
            Some(v) => seq![v],
            None => Seq::empty(),
        }) + vals_from(m, p, k + 1)
    }
}

/// The decoded mesh's fields for slots before `k`, empty after.
pub open spec fn partial_mesh(m: MeshView, p: TMFPrecisionInfo, k: int) -> MeshView {
    let md = decoded_mesh(m, p);
    MeshView {
        vertices: if k > 0 {
            md.vertices
        } else {
            None
        },
        vertex_triangles: if k > 1 {
            md.vertex_triangles
        } else {
            None
        },
        normals: if k > 2 {
            md.normals
        } else {
            None
        },
        normal_triangles: if k > 3 {
            md.normal_triangles
        } else {
            None
        },
        uvs: if k > 4 {
            md.uvs
        } else {
            None
        },
        uv_triangles: if k > 5 {
            md.uv_triangles
        } else {
            None
        },
    }
}


/// The header this crate writes parses back, passes the version gate,
/// and selects the wide legacy widths.
proof fn lemma_header_round_trip(mesh_count: u32, rest: Seq<u8>)
    ensures
        crate::tmf_importer::parse_header(header_bytes(mesh_count) + rest) == Ok::<
            (int, crate::tmf_importer::TMFHeader),
            TMFImportError,
        >(
            (
                11,
                crate::tmf_importer::TMFHeader {
                    major: TMF_MAJOR,
                    minor: TMF_MINOR,
                    min_major: MIN_TMF_MAJOR,
                    min_minor: MIN_TMF_MINOR,
                },
            ),
        ),
        CtxView::of_header(
            crate::tmf_importer::TMFHeader {
                major: TMF_MAJOR,
                minor: TMF_MINOR,
                min_major: MIN_TMF_MAJOR,
                min_minor: MIN_TMF_MINOR,
            },
        ) == CtxView::legacy(),
        header_bytes(mesh_count).len() == 15,
        spec_u32_from_le_bytes((header_bytes(mesh_count) + rest).skip(11).take(4)) == mesh_count,
        (header_bytes(mesh_count) + rest).skip(11).skip(4) =~= rest,
{
    lemma_auto_spec_u16_to_from_le_bytes();
    vstd::bytes::lemma_auto_spec_u32_to_from_le_bytes();
    let s = header_bytes(mesh_count) + rest;
    assert(s[0] == 84 && s[1] == 77 && s[2] == 70);
    assert(s.subrange(3, 5) =~= spec_u16_to_le_bytes(TMF_MAJOR));
    assert(s.subrange(5, 7) =~= spec_u16_to_le_bytes(TMF_MINOR));
    assert(s.subrange(7, 9) =~= spec_u16_to_le_bytes(MIN_TMF_MAJOR));
    assert(s.subrange(9, 11) =~= spec_u16_to_le_bytes(MIN_TMF_MINOR));
    assert(s.skip(11).take(4) =~= spec_u32_to_le_bytes(mesh_count));
    assert(s.skip(11).skip(4) =~= rest);
}

/// Prepending one mesh record to a file's mesh records concatenates
/// their bytes.
proof fn lemma_meshes_bytes_cons(
    x: (MeshView, Seq<char>),
    list: Seq<(MeshView, Seq<char>)>,
    p: TMFPrecisionInfo,
)
    ensures
        meshes_bytes(seq![x] + list, p) == mesh_bytes(x.0, x.1, p) + meshes_bytes(list, p),
    decreases list.len(),
{
    if list.len() == 0 {
        assert((seq![x] + list).drop_last() =~= Seq::<(MeshView, Seq<char>)>::empty());
        assert((seq![x] + list).last() == x);
        assert(meshes_bytes(seq![x] + list, p) == meshes_bytes(
            Seq::<(MeshView, Seq<char>)>::empty(),
            p,
        ) + mesh_bytes(x.0, x.1, p));
        assert(meshes_bytes(seq![x] + list, p) =~= mesh_bytes(x.0, x.1, p) + meshes_bytes(
            list,
            p,
        ));
    } else {
        lemma_meshes_bytes_cons(x, list.drop_last(), p);
        assert((seq![x] + list).drop_last() =~= seq![x] + list.drop_last());
        assert((seq![x] + list).last() == list.last());
        assert(meshes_bytes(seq![x] + list, p) == meshes_bytes(seq![x] + list.drop_last(), p)
            + mesh_bytes(list.last().0, list.last().1, p));
        assert(meshes_bytes(seq![x] + list, p) =~= mesh_bytes(x.0, x.1, p) + meshes_bytes(
            list,
            p,
        ));
    }
}

/// The mesh records this crate writes parse back one after another, each
/// to its decoded mesh under its own name.
proof fn lemma_meshes_round_trip(
    list: Seq<(MeshView, Seq<char>)>,
    p: TMFPrecisionInfo,
    rest: Seq<u8>,
)
    requires
        forall|i: int|
            0 <= i < list.len() ==> mesh_exportable((#[trigger] list[i]).0, list[i].1),
    ensures
        parse_meshes(meshes_bytes(list, p) + rest, list.len(), CtxView::legacy()) == Ok::<
            (int, Seq<(MeshView, Seq<char>)>),
            TMFImportError,
        >(
            (
                meshes_bytes(list, p).len() as int,
                Seq::new(list.len(), |i: int| (decoded_mesh(list[i].0, p), list[i].1)),
            ),
        ),
    decreases list.len(),
{
    let ctx = CtxView::legacy();
    if list.len() == 0 {
        assert(meshes_bytes(list, p) + rest =~= rest);
        assert(Seq::new(0, |i: int| (decoded_mesh(list[i].0, p), list[i].1)) =~= Seq::<
            (MeshView, Seq<char>),
        >::empty());
    } else {
        let x = list[0];
        let tail = list.drop_first();
        assert(list =~= seq![x] + tail);
        lemma_meshes_bytes_cons(x, tail, p);
        let mb = mesh_bytes(x.0, x.1, p);
        let tb = meshes_bytes(tail, p);
        assert(meshes_bytes(list, p) + rest =~= mb + (tb + rest));
        lemma_mesh_round_trip(x.0, x.1, p, tb + rest);
        assert(forall|i: int|
            0 <= i < tail.len() ==> mesh_exportable((#[trigger] tail[i]).0, tail[i].1)) by {
            assert(forall|i: int| 0 <= i < tail.len() ==> tail[i] == list[i + 1]);
        }
        lemma_meshes_round_trip(tail, p, rest);
        assert((mb + (tb + rest)).skip(mb.len() as int) =~= tb + rest);
        let got = Seq::new(list.len(), |i: int| (decoded_mesh(list[i].0, p), list[i].1));
        let got_tail = Seq::new(tail.len(), |i: int| (decoded_mesh(tail[i].0, p), tail[i].1));
        assert(got =~= seq![(decoded_mesh(x.0, p), x.1)] + got_tail);
        assert(meshes_bytes(list, p).len() == mb.len() + tb.len());
    }
}

/// The round-trip law: a file written by this crate reads back with the
/// same number of meshes, each under exactly the name it was written
/// with, each keeping every attribute array's presence or absence, the
/// triangle-index arrays byte-exact, and every attribute component
/// within one quantization step of its original.
pub proof fn lemma_file_round_trip(list: Seq<(MeshView, Seq<char>)>, p: TMFPrecisionInfo)
    requires
        list.len() <= u32::MAX,
        forall|i: int|
            0 <= i < list.len() ==> mesh_exportable((#[trigger] list[i]).0, list[i].1),
    ensures
        parse_file(header_bytes(list.len() as u32) + meshes_bytes(list, p)) == Ok::<
            Seq<(MeshView, Seq<char>)>,
            TMFImportError,
        >(Seq::new(list.len(), |i: int| (decoded_mesh(list[i].0, p), list[i].1))),
        forall|i: int|
            0 <= i < list.len() ==> decoded_mesh((#[trigger] list[i]).0, p).same_presence(
                list[i].0,
            ),
{
    let mb = meshes_bytes(list, p);
    lemma_header_round_trip(list.len() as u32, mb);
    lemma_meshes_round_trip(list, p, Seq::empty());
    let s = header_bytes(list.len() as u32) + mb;
    assert(s.skip(11).skip(4) =~= mb);
    assert(mb + Seq::<u8>::empty() =~= mb);
    assert(s.skip(11).len() >= 4);
    assert forall|i: int| 0 <= i < list.len() implies decoded_mesh(
        (#[trigger] list[i]).0,
        p,
    ).same_presence(list[i].0) by {
        lemma_mesh_round_trip(list[i].0, list[i].1, p, Seq::empty());
    }
}

} // verus!
