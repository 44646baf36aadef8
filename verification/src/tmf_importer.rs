//! The import side's per-file context: header parsing, the version gate,
//! and the width selectors the header's minor version picks.

use vstd::bytes::{spec_u16_from_le_bytes, spec_u64_from_le_bytes};
use vstd::prelude::*;

use crate::mesh::{MeshView, TMFMesh};
use crate::reader::Reader;
use crate::tmf::{
    decode_all_spec, decode_payload, frame_views, parse_file, parse_mesh_bytes, parse_meshes,
    parse_seg_list, parse_string, seg_views, DecodedSegment, EncodedSegment, SectionType,
    SegValue,
};
use crate::{TMFImportError, TMF_MAJOR, TMF_MINOR};

verus! {

/// How wide a segment's length field is on disk.
#[derive(Debug, Clone, Copy, PartialEq, Eq, Structural)]
pub enum SegLenWidth {
    U32,
    U64,
}

/// How wide a segment's type tag is on disk.
#[derive(Debug, Clone, Copy, PartialEq, Eq, Structural)]
pub enum SegTypeWidth {
    U16,
    U8,
}

/// A file's header fields: who wrote it, and the oldest reader it admits.
#[derive(Debug, Clone, Copy, PartialEq, Eq, Structural)]
pub struct TMFHeader {
    pub major: u16,
    pub minor: u16,
    pub min_major: u16,
    pub min_minor: u16,
}

/// True when this crate's reader satisfies the header's minimum-version
/// demand: the sole backward-compatibility gate.
pub open spec fn version_ok(min_major: u16, min_minor: u16) -> bool {
    !(min_major > TMF_MAJOR || (min_major == TMF_MAJOR && min_minor > TMF_MINOR))
}

/// The compact profile: headers demanding a reader past minor version 1
/// use narrow segment fields and carry a triangle-index baseline.
pub open spec fn spec_compact(min_minor: u16) -> bool {
    min_minor > 1
}

/// What an import context holds: both width selectors and whether each
/// triangle segment carries a baseline index.
pub struct CtxView {
    pub stw: SegTypeWidth,
    pub slw: SegLenWidth,
    pub read_min: bool,
}

impl CtxView {
    /// The context a header selects, applied uniformly to every segment
    /// of the file.
    pub open spec fn of_header(hdr: TMFHeader) -> CtxView {
        CtxView {
            stw: if spec_compact(hdr.min_minor) {
                SegTypeWidth::U8
            } else {
                SegTypeWidth::U16
            },
            slw: if spec_compact(hdr.min_minor) {
                SegLenWidth::U32
            } else {
                SegLenWidth::U64
            },
            read_min: spec_compact(hdr.min_minor),
        }
    }

    /// The context for files this crate writes: wide fields, no baseline.
    pub open spec fn legacy() -> CtxView {
        CtxView { stw: SegTypeWidth::U16, slw: SegLenWidth::U64, read_min: false }
    }
}

impl SegLenWidth {
    /// The length width a header selects.
    pub fn from_header(header: &TMFHeader) -> (r: SegLenWidth)
        ensures
            r == CtxView::of_header(*header).slw,
    {
        if header.min_minor > 1 {
            SegLenWidth::U32
        } else {
            SegLenWidth::U64
        }
    }

    /// Reads one segment-length field at this width.
    pub fn read(&self, src: &mut Reader) -> (r: Result<u64, TMFImportError>)
        requires
            old(src).wf(),
        ensures
            final(src).wf(),
            match *self {
                SegLenWidth::U32 => {
                    &&& old(src).remaining().len() >= 4 ==> r == Ok::<u64, TMFImportError>(
                        vstd::bytes::spec_u32_from_le_bytes(old(src).remaining().take(4)) as u64,
                    ) && final(src).remaining() == old(src).remaining().skip(4)
                    &&& old(src).remaining().len() < 4 ==> r == Err::<u64, TMFImportError>(
                        TMFImportError::UnexpectedEnd,
                    )
                },
                SegLenWidth::U64 => {
                    &&& old(src).remaining().len() >= 8 ==> r == Ok::<u64, TMFImportError>(
                        spec_u64_from_le_bytes(old(src).remaining().take(8)),
                    ) && final(src).remaining() == old(src).remaining().skip(8)
                    &&& old(src).remaining().len() < 8 ==> r == Err::<u64, TMFImportError>(
                        TMFImportError::UnexpectedEnd,
                    )
                },
            },
    {
        match self {
            SegLenWidth::U32 => match src.read_u32() {
                Ok(v) => Ok(v as u64),
                Err(e) => Err(e),
            },
            SegLenWidth::U64 => src.read_u64(),
        }
    }
}

impl SegTypeWidth {
    /// The tag width a header selects.
    pub fn from_header(header: &TMFHeader) -> (r: SegTypeWidth)
        ensures
            r == CtxView::of_header(*header).stw,
    {
        if header.min_minor > 1 {
            SegTypeWidth::U8
        } else {
            SegTypeWidth::U16
        }
    }

    /// Reads one segment type tag at this width; unknown values come back
    /// as the invalid section.
    pub fn read(&self, src: &mut Reader) -> (r: Result<
        crate::tmf::SectionType,
        TMFImportError,
    >)
        requires
            old(src).wf(),
        ensures
            final(src).wf(),
            match *self {
                SegTypeWidth::U8 => {
                    &&& old(src).remaining().len() >= 1 ==> r == Ok::<
                        crate::tmf::SectionType,
                        TMFImportError,
                    >(crate::tmf::spec_section_from_u16(old(src).remaining()[0] as u16))
                        && final(src).remaining() == old(src).remaining().skip(1)
                    &&& old(src).remaining().len() < 1 ==> r == Err::<
                        crate::tmf::SectionType,
                        TMFImportError,
                    >(TMFImportError::UnexpectedEnd)
                },
                SegTypeWidth::U16 => {
                    &&& old(src).remaining().len() >= 2 ==> r == Ok::<
                        crate::tmf::SectionType,
                        TMFImportError,
                    >(
                        crate::tmf::spec_section_from_u16(
                            spec_u16_from_le_bytes(old(src).remaining().take(2)),
                        ),
                    ) && final(src).remaining() == old(src).remaining().skip(2)
                    &&& old(src).remaining().len() < 2 ==> r == Err::<
                        crate::tmf::SectionType,
                        TMFImportError,
                    >(TMFImportError::UnexpectedEnd)
                },
            },
    {
        match self {
            SegTypeWidth::U8 => match src.read_u8() {
                Ok(v) => Ok(crate::tmf::SectionType::from_u8(v)),
                Err(e) => Err(e),
            },
            SegTypeWidth::U16 => match src.read_u16() {
                Ok(v) => Ok(crate::tmf::SectionType::from_u16(v)),
                Err(e) => Err(e),
            },
        }
    }
}

/// What a file header's first bytes mean: the header fields, or the
/// condition they break. Eleven bytes: three of magic, four u16 version
/// fields.
pub open spec fn parse_header(s: Seq<u8>) -> Result<(int, TMFHeader), TMFImportError> {
    if s.len() < 3 {
        Err(TMFImportError::UnexpectedEnd)
    } else if !(s[0] == 84 && s[1] == 77 && s[2] == 70) {
        Err(TMFImportError::NotTMFFile)
    } else if s.len() < 11 {
        Err(TMFImportError::UnexpectedEnd)
    } else {
        let major = spec_u16_from_le_bytes(s.subrange(3, 5));
        let minor = spec_u16_from_le_bytes(s.subrange(5, 7));
        let min_major = spec_u16_from_le_bytes(s.subrange(7, 9));
        let min_minor = spec_u16_from_le_bytes(s.subrange(9, 11));
        if !version_ok(min_major, min_minor) {
            Err(TMFImportError::NewerVersionRequired)
        } else {
            Ok((11, TMFHeader { major, minor, min_major, min_minor }))
        }
    }
}

/// Reads and validates a file header: magic bytes, then the version gate.
/// A file demanding a newer reader is refused; any other version skew
/// stays readable.
pub fn read_tmf_header(src: &mut Reader) -> (r: Result<TMFHeader, TMFImportError>)
    requires
        old(src).wf(),
    ensures
        final(src).wf(),
        match parse_header(old(src).remaining()) {
            Ok((n, hdr)) => r == Ok::<TMFHeader, TMFImportError>(hdr) && final(src).remaining()
                == old(src).remaining().skip(n),
            Err(e) => r == Err::<TMFHeader, TMFImportError>(e),
        },
{
    let m0 = src.read_u8()?;
    let m1 = src.read_u8()?;
    let m2 = src.read_u8()?;
    if !(m0 == 84 && m1 == 77 && m2 == 70) {
        return Err(TMFImportError::NotTMFFile);
    }
    let major = src.read_u16()?;
    let minor = src.read_u16()?;
    let min_major = src.read_u16()?;
    let min_minor = src.read_u16()?;
    proof {
        let s = old(src).remaining();
        assert(s.skip(1).skip(1).skip(1) =~= s.skip(3));
        assert(s.skip(3).take(2) =~= s.subrange(3, 5));
        assert(s.skip(3).skip(2) =~= s.skip(5));
        assert(s.skip(5).take(2) =~= s.subrange(5, 7));
        assert(s.skip(5).skip(2) =~= s.skip(7));
        assert(s.skip(7).take(2) =~= s.subrange(7, 9));
        assert(s.skip(7).skip(2) =~= s.skip(9));
        assert(s.skip(9).take(2) =~= s.subrange(9, 11));
        assert(s.skip(9).skip(2) =~= s.skip(11));
    }
    if min_major > TMF_MAJOR || (min_major == TMF_MAJOR && min_minor > TMF_MINOR) {
        return Err(TMFImportError::NewerVersionRequired);
    }
    Ok(TMFHeader { major, minor, min_major, min_minor })
}

/// The shared, read-only state of one import: the width selectors and
/// the baseline flag, fixed by the header for the life of the read.
pub struct TMFImportContext {
    slw: SegLenWidth,
    stw: SegTypeWidth,
    should_read_min_index: bool,
}

impl View for TMFImportContext {
    type V = CtxView;

    closed spec fn view(&self) -> CtxView {
        CtxView { stw: self.stw, slw: self.slw, read_min: self.should_read_min_index }
    }
}

impl TMFImportContext {
    /// The tag width this file uses.
    pub fn stw(&self) -> (r: &SegTypeWidth)
        ensures
            *r == self@.stw,
    {
        &self.stw
    }

    /// The length width this file uses.
    pub fn slw(&self) -> (r: &SegLenWidth)
        ensures
            *r == self@.slw,
    {
        &self.slw
    }

    /// Reads the triangle-index baseline that the compact profile puts
    /// before each triangle payload; the legacy profile carries none and
    /// the baseline is zero.
    pub fn read_traingle_min(&self, src: &mut Reader) -> (r: Result<u64, TMFImportError>)
        requires
            old(src).wf(),
        ensures
            final(src).wf(),
            self@.read_min ==> {
                &&& old(src).remaining().len() >= 8 ==> r == Ok::<u64, TMFImportError>(
                    spec_u64_from_le_bytes(old(src).remaining().take(8)),
                ) && final(src).remaining() == old(src).remaining().skip(8)
                &&& old(src).remaining().len() < 8 ==> r == Err::<u64, TMFImportError>(
                    TMFImportError::UnexpectedEnd,
                )
            },
            !self@.read_min ==> r == Ok::<u64, TMFImportError>(0) && final(src).remaining() == old(
                src,
            ).remaining(),
    {
        if self.should_read_min_index {
            src.read_u64()
        } else {
            Ok(0)
        }
    }

    /// Fixes the context a validated header selects.
    pub fn init_header(hdr: TMFHeader) -> (r: TMFImportContext)
        ensures
            r@ == CtxView::of_header(hdr),
    {
        let slw = SegLenWidth::from_header(&hdr);
        let stw = SegTypeWidth::from_header(&hdr);
        TMFImportContext { slw, stw, should_read_min_index: hdr.min_minor > 1 }
    }

    /// The context for files this crate writes.
    pub fn legacy() -> (r: TMFImportContext)
        ensures
            r@ == CtxView::legacy(),
    {
        TMFImportContext {
            slw: SegLenWidth::U64,
            stw: SegTypeWidth::U16,
            should_read_min_index: false,
        }
    }
}


/// Reads a length-prefixed UTF-8 name, exactly as [`parse_string`]
/// says.
pub fn read_string(src: &mut Reader) -> (res: Result<String, TMFImportError>)
    requires
        old(src).wf(),
    ensures
        final(src).wf(),
        match parse_string(old(src).remaining()) {
            Ok((n, cs)) => res matches Ok(s) && s@ == cs && final(src).remaining() == old(
                src,
            ).remaining().skip(n),
            Err(e) => res == Err::<String, TMFImportError>(e),
        },
{
    crate::tmf::read_string(src)
}

/// Relies on `futures::future::lazy`, `futures::future::join_all` and
/// `futures::executor::block_on`: one future per segment, each only
/// calling this crate's segment decoder when polled, and the joined
/// output keeps the input order.
#[verifier::external_body]
fn decode_all_concurrent(segs: Vec<EncodedSegment>, ctx: &TMFImportContext) -> (r: Vec<
    Result<DecodedSegment, TMFImportError>,
>)
    ensures
        r@.len() == segs@.len(),
        forall|i: int|
            0 <= i < segs@.len() ==> match decode_payload(segs@[i]@.0, segs@[i]@.1, ctx@.read_min) {
                Ok(v) => (#[trigger] r@[i]) matches Ok(d) && d@ == v,
                Err(e) => r@[i] == Err::<DecodedSegment, TMFImportError>(e),
            },
{
    futures::executor::block_on(
        futures::future::join_all(
            segs.into_iter().map(
                |seg| futures::future::lazy(move |_| DecodedSegment::decode(seg, ctx)),
            ),
        ),
    )
}

/// Joins concurrently decoded segments back into one result: the values
/// in order, or the first faulty payload's error, exactly as
/// [`decode_all_spec`] says.
#[verifier::loop_isolation(false)]
fn collect_decoded(
    rs: Vec<Result<DecodedSegment, TMFImportError>>,
    Ghost(frames): Ghost<Seq<(SectionType, Seq<u8>)>>,
    Ghost(cv): Ghost<CtxView>,
) -> (r: Result<Vec<DecodedSegment>, TMFImportError>)
    requires
        rs@.len() == frames.len(),
        forall|i: int|
            0 <= i < rs@.len() ==> match decode_payload(frames[i].0, frames[i].1, cv.read_min) {
                Ok(v) => (#[trigger] rs@[i]) matches Ok(d) && d@ == v,
                Err(e) => rs@[i] == Err::<DecodedSegment, TMFImportError>(e),
            },
    ensures
        match decode_all_spec(frames, cv) {
            Ok(vals) => r matches Ok(v) && seg_views(v@) == vals,
            Err(e) => r == Err::<Vec<DecodedSegment>, TMFImportError>(e),
        },
{
    let ghost orig = decode_all_spec(frames, cv);
    let ghost full = rs@;
    let mut work = rs;
    let mut out: Vec<DecodedSegment> = Vec::new();
    let ghost n = frames.len();
    proof {
        lemma_decode_list_len(frames, cv);
        assert(frames.skip(0) =~= frames);
        match orig {
            Ok(vals) => {
                assert(vals.skip(0) =~= vals);
                assert(seg_views(out@) =~= vals.take(0));
            },
            Err(_) => {},
        }
    }
    while work.len() > 0
        invariant
            out@.len() + work@.len() == n,
            forall|i: int| 0 <= i < work@.len() ==> (#[trigger] work@[i]) == full[
                out@.len() + i
            ],
            match orig {
                Ok(vals) => decode_all_spec(frames.skip(out@.len() as int), cv) == Ok::<
                    Seq<SegValue>,
                    TMFImportError,
                >(vals.skip(out@.len() as int)) && seg_views(out@) == vals.take(
                    out@.len() as int,
                ),
                Err(e) => decode_all_spec(frames.skip(out@.len() as int), cv) == Err::<
                    Seq<SegValue>,
                    TMFImportError,
                >(e),
            },
        decreases work@.len(),
    {
        let ghost done = out@.len() as int;
        proof {
            assert(frames.skip(done).len() > 0);
            assert(frames.skip(done)[0] == frames[done]);
            assert(frames.skip(done).drop_first() =~= frames.skip(done + 1));
        }
        let item = work.remove(0);
        proof {
            assert(item == full[done]);
        }
        let dec = match item {
            Ok(d) => d,
            Err(e) => {
                proof {
                    match orig {
                        Ok(vals) => {
                            assert(decode_payload(frames[done].0, frames[done].1, cv.read_min)
                                is Ok);
                            assert(false);
                        },
                        Err(e0) => {
                            assert(e == e0);
                        },
                    }
                }
                return Err(e);
            },
        };
        out.push(dec);
        proof {
            match orig {
                Ok(vals) => {
                    let sub = decode_all_spec(frames.skip(done + 1), cv);
                    assert(sub is Ok);
                    let rest = sub.unwrap();
                    assert(seq![dec@] + rest == vals.skip(done));
                    assert((seq![dec@] + rest).drop_first() =~= rest);
                    assert(vals.skip(done).drop_first() =~= vals.skip(done + 1));
                    assert(rest == vals.skip(done + 1));
                    assert((seq![dec@] + rest)[0] == dec@);
                    assert(dec@ == vals[done]);
                    assert(seg_views(out@) =~= vals.take(done + 1));
                },
                Err(_) => {},
            }
        }
    }
    proof {
        match orig {
            Ok(vals) => {
                assert(vals.take(out@.len() as int) =~= vals);
            },
            Err(_) => {
                assert(decode_all_spec(frames.skip(out@.len() as int), cv) is Ok);
                assert(false);
            },
        }
    }
    Ok(out)
}

/// Decoding a segment list yields one value per segment.
proof fn lemma_decode_list_len(frames: Seq<(SectionType, Seq<u8>)>, cv: CtxView)
    ensures
        decode_all_spec(frames, cv) matches Ok(vals) ==> vals.len() == frames.len(),
    decreases frames.len(),
{
    if frames.len() > 0 {
        lemma_decode_list_len(frames.drop_first(), cv);
    }
}

impl TMFImportContext {
    /// Reads one mesh record: name and segment count, every segment
    /// buffered in full, the payloads decoded concurrently, the results
    /// joined in their read order and applied to a fresh mesh.
    pub fn import_mesh(&self, src: &mut Reader) -> (r: Result<
        (TMFMesh, String),
        TMFImportError,
    >)
        requires
            old(src).wf(),
        ensures
            final(src).wf(),
            match parse_mesh_bytes(old(src).remaining(), self@) {
                Ok((u, m, name)) => r matches Ok((mesh, nm)) && mesh@ == m && nm@ == name
                    && final(src).remaining() == old(src).remaining().skip(u),
                Err(e) => r == Err::<(TMFMesh, String), TMFImportError>(e),
            },
    {
        let ghost s = old(src).remaining();
        let name = read_string(src)?;
        let ghost n1 = parse_string(s).unwrap().0;
        let ghost s2 = s.skip(n1);
        let segment_count = match src.read_u16() {
            Ok(c) => c,
            Err(e) => {
                return Err(e);
            },
        };
        proof {
            assert(s2.skip(2) =~= s.skip(n1 + 2));
        }
        let encs = match crate::tmf::collect_segments(self, src, segment_count) {
            Ok(v) => v,
            Err(e) => {
                return Err(e);
            },
        };
        let ghost u = parse_seg_list(s2.skip(2), segment_count as nat, self@).unwrap().0;
        proof {
            crate::tmf::lemma_parse_seg_list_len(s2.skip(2), segment_count as nat, self@);
            assert(s.skip(n1 + 2).skip(u) =~= s.skip(n1 + 2 + u));
            assert(src.remaining() =~= s.skip(n1 + 2 + u));
        }
        let ghost frames = frame_views(encs@);
        let results = decode_all_concurrent(encs, self);
        let decs = match collect_decoded(results, Ghost(frames), Ghost(self@)) {
            Ok(v) => v,
            Err(e) => {
                return Err(e);
            },
        };
        let mesh = match crate::tmf::apply_frames(decs) {
            Ok(m) => m,
            Err(e) => {
                return Err(e);
            },
        };
        Ok((mesh, name))
    }

    /// Reads a whole file through the concurrent-decode pipeline: meshes
    /// one after another, only each mesh's payload decoding running as a
    /// joined task group.
    #[verifier::loop_isolation(false)]
    #[verifier::rlimit(60)]
    pub fn import(src: &mut Reader) -> (r: Result<Vec<(TMFMesh, String)>, TMFImportError>)
        requires
            old(src).wf(),
        ensures
            final(src).wf(),
            match parse_file(old(src).remaining()) {
                Ok(list) => r matches Ok(v) && v@.len() == list.len() && (forall|i: int|
                    0 <= i < list.len() ==> ((#[trigger] v@[i]).0@ == list[i].0 && v@[i].1@
                        == list[i].1)),
                Err(e) => r == Err::<Vec<(TMFMesh, String)>, TMFImportError>(e),
            },
    {
        let ghost s = old(src).remaining();
        let header = read_tmf_header(src)?;
        let ghost hu = parse_header(s).unwrap().0;
        let ghost s2 = s.skip(hu);
        let mesh_count = match src.read_u32() {
            Ok(c) => c,
            Err(e) => {
                return Err(e);
            },
        };
        proof {
            assert(s2.skip(4) =~= s.skip(hu + 4));
        }
        let res = Self::init_header(header);
        let ghost s0 = src.remaining();
        let ghost orig = parse_meshes(s0, mesh_count as nat, res@);
        let mut meshes: Vec<(TMFMesh, String)> = Vec::new();
        let mut k: u32 = 0;
        let ghost mut consumed: int = 0;
        proof {
            crate::tmf::lemma_parse_meshes_len(s0, mesh_count as nat, res@);
            assert(s0.skip(0) =~= s0);
            match orig {
                Ok((u, list)) => {
                    assert(list.skip(0) =~= list);
                },
                Err(_) => {},
            }
        }
        while k < mesh_count
            invariant
                src.wf(),
                k <= mesh_count,
                meshes@.len() == k,
                src.remaining() == s0.skip(consumed),
                0 <= consumed <= s0.len(),
                match orig {
                    Ok((u, list)) => {
                        &&& list.len() == mesh_count
                        &&& parse_meshes(src.remaining(), (mesh_count - k) as nat, res@) == Ok::<
                            (int, Seq<(MeshView, Seq<char>)>),
                            TMFImportError,
                        >((u - consumed, list.skip(k as int)))
                        &&& forall|i: int|
                            0 <= i < k ==> ((#[trigger] meshes@[i]).0@ == list[i].0
                                && meshes@[i].1@ == list[i].1)
                    },
                    Err(e) => parse_meshes(src.remaining(), (mesh_count - k) as nat, res@)
                        == Err::<(int, Seq<(MeshView, Seq<char>)>), TMFImportError>(e),
                },
            decreases mesh_count - k,
        {
            let ghost rem = src.remaining();
            let ghost k0 = k as int;
            let ghost c0 = consumed;
            let pair = match res.import_mesh(src) {
                Ok(p) => p,
                Err(e) => {
                    proof {
                        match orig {
                            Ok((u, list)) => {
                                assert(parse_meshes(rem, (mesh_count - k0) as nat, res@) is Ok);
                                assert(parse_mesh_bytes(rem, res@) is Ok);
                                assert(false);
                            },
                            Err(e0) => {
                                assert(parse_meshes(rem, (mesh_count - k0) as nat, res@) == Err::<
                                    (int, Seq<(MeshView, Seq<char>)>),
                                    TMFImportError,
                                >(e0));
                                assert(e == e0);
                            },
                        }
                    }
                    return Err(e);
                },
            };
            proof {
                let (u1, m, name) = parse_mesh_bytes(rem, res@).unwrap();
                crate::tmf::lemma_parse_mesh_bytes_used(rem, res@);
                assert(rem.skip(u1) =~= s0.skip(c0 + u1));
                assert(src.remaining() =~= s0.skip(c0 + u1));
                consumed = consumed + u1;
            }
            meshes.push(pair);
            k = k + 1;
            proof {
                let (u1, m, name) = parse_mesh_bytes(rem, res@).unwrap();
                match orig {
                    Ok((u, list)) => {
                        let sub = parse_meshes(rem.skip(u1), (mesh_count - k0 - 1) as nat, res@);
                        assert(sub is Ok);
                        let (u2, rest) = sub.unwrap();
                        assert(seq![(m, name)] + rest == list.skip(k0));
                        assert((seq![(m, name)] + rest).drop_first() =~= rest);
                        assert(list.skip(k0).drop_first() =~= list.skip(k0 + 1));
                        assert(rest == list.skip(k0 + 1));
                        assert((seq![(m, name)] + rest)[0] == (m, name));
                        assert(list[k0] == (m, name));
                    },
                    Err(_) => {},
                }
            }
        }
        proof {
            match orig {
                Ok(_) => {},
                Err(_) => {
                    assert(false);
                },
            }
        }
        Ok(meshes)
    }
}

/// Reads a whole file through the import pipeline, blocking until it is
/// done.
pub fn import_sync(src: &mut Reader) -> (r: Result<Vec<(TMFMesh, String)>, TMFImportError>)
    requires
        old(src).wf(),
    ensures
        final(src).wf(),
        match parse_file(old(src).remaining()) {
            Ok(list) => r matches Ok(v) && v@.len() == list.len() && (forall|i: int|
                0 <= i < list.len() ==> ((#[trigger] v@[i]).0@ == list[i].0 && v@[i].1@
                    == list[i].1)),
            Err(e) => r == Err::<Vec<(TMFMesh, String)>, TMFImportError>(e),
        },
{
    TMFImportContext::import(src)
}

} // verus!
