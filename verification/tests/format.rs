use tmf::mesh::TMFMesh;
use tmf::reader::Reader;
use tmf::tmf::{read, read_mesh, read_segment_header, read_u16, write_mesh, write_string, SectionType};
use tmf::tmf_importer::{import_sync, read_tmf_header, TMFImportContext};
use tmf::{
    TMFExportError, TMFImportError, TMFPrecisionInfo, MIN_TMF_MAJOR, MIN_TMF_MINOR, TMF_MAJOR,
    TMF_MINOR, UNIT,
};

fn header_bytes(min_major: u16, min_minor: u16, mesh_count: u32) -> Vec<u8> {
    let mut out = Vec::new();
    out.extend_from_slice(&[84u8, 77, 70]);
    out.extend_from_slice(&TMF_MAJOR.to_le_bytes());
    out.extend_from_slice(&TMF_MINOR.to_le_bytes());
    out.extend_from_slice(&min_major.to_le_bytes());
    out.extend_from_slice(&min_minor.to_le_bytes());
    out.extend_from_slice(&mesh_count.to_le_bytes());
    out
}

/// An empty vertex-array payload: zero entries, step one.
fn empty_vec3_payload() -> Vec<u8> {
    let mut p = Vec::new();
    p.extend_from_slice(&0u32.to_le_bytes());
    p.extend_from_slice(&1u64.to_le_bytes());
    p
}

fn legacy_frame(tag: u16, payload: &[u8]) -> Vec<u8> {
    let mut out = Vec::new();
    out.extend_from_slice(&tag.to_le_bytes());
    out.extend_from_slice(&(payload.len() as u64).to_le_bytes());
    out.extend_from_slice(payload);
    out
}

fn sample_mesh() -> TMFMesh {
    let mut mesh = TMFMesh::empty();
    mesh.set_vertices(vec![(0, 0, 0), (UNIT, 0, 0), (0, UNIT, 0), (UNIT, UNIT, UNIT)]);
    mesh.set_vertex_triangles(vec![0, 1, 2, 1, 3, 2]);
    mesh.set_normals(vec![(0, 0, UNIT), (0, UNIT, 0)]);
    mesh.set_normal_triangles(vec![0, 0, 0, 1, 1, 1]);
    mesh.set_uvs(vec![(0, 0), (UNIT, 0), (0, UNIT)]);
    mesh.set_uv_triangles(vec![0, 1, 2, 0, 1, 2]);
    mesh
}

#[test]
fn version_gate_accepts_equal_or_older() {
    let mut reader = Reader::new(header_bytes(TMF_MAJOR, TMF_MINOR, 0));
    assert!(read(&mut reader).is_ok());
    let mut reader = Reader::new(header_bytes(MIN_TMF_MAJOR, MIN_TMF_MINOR, 0));
    assert!(read(&mut reader).is_ok());
}

#[test]
fn version_gate_rejects_newer_major() {
    let mut reader = Reader::new(header_bytes(TMF_MAJOR + 1, 0, 0));
    assert!(matches!(
        read(&mut reader),
        Err(TMFImportError::NewerVersionRequired)
    ));
}

#[test]
fn version_gate_rejects_newer_minor() {
    let mut reader = Reader::new(header_bytes(TMF_MAJOR, TMF_MINOR + 1, 0));
    let mut r2 = Reader::new(header_bytes(TMF_MAJOR, TMF_MINOR + 1, 0));
    assert!(matches!(
        read(&mut reader),
        Err(TMFImportError::NewerVersionRequired)
    ));
    assert_eq!(
        read_tmf_header(&mut r2),
        Err(TMFImportError::NewerVersionRequired)
    );
}

#[test]
fn bad_magic_is_not_tmf() {
    let mut bytes = header_bytes(TMF_MAJOR, TMF_MINOR, 0);
    bytes[0] = 88;
    let mut reader = Reader::new(bytes);
    assert!(matches!(read(&mut reader), Err(TMFImportError::NotTMFFile)));
}

#[test]
fn truncated_header_is_unexpected_end() {
    let mut reader = Reader::new(vec![84u8, 77]);
    assert!(matches!(read(&mut reader), Err(TMFImportError::UnexpectedEnd)));
}

#[test]
fn duplicate_vertex_segment_is_rejected() {
    // One mesh carrying two VertexSegment entries must fail.
    let mut bytes = header_bytes(MIN_TMF_MAJOR, MIN_TMF_MINOR, 1);
    bytes.extend_from_slice(&2u16.to_le_bytes());
    bytes.extend_from_slice("ab".as_bytes());
    bytes.extend_from_slice(&2u16.to_le_bytes());
    let payload = empty_vec3_payload();
    bytes.extend_from_slice(&legacy_frame(1, &payload));
    bytes.extend_from_slice(&legacy_frame(1, &payload));
    let mut reader = Reader::new(bytes);
    assert!(matches!(
        read(&mut reader),
        Err(TMFImportError::DuplicateSegment)
    ));
}

#[test]
fn unknown_segment_is_skipped() {
    // A tag outside the known set must be ignored, not refused.
    let mut bytes = header_bytes(MIN_TMF_MAJOR, MIN_TMF_MINOR, 1);
    bytes.extend_from_slice(&2u16.to_le_bytes());
    bytes.extend_from_slice("ab".as_bytes());
    bytes.extend_from_slice(&2u16.to_le_bytes());
    bytes.extend_from_slice(&legacy_frame(999, &[1, 2, 3, 4]));
    let payload = empty_vec3_payload();
    bytes.extend_from_slice(&legacy_frame(1, &payload));
    let mut reader = Reader::new(bytes);
    let meshes = read(&mut reader).unwrap();
    assert_eq!(meshes.len(), 1);
    assert_eq!(meshes[0].1, "ab");
    assert!(meshes[0].0.get_vertices().is_some());
}

#[test]
fn invalid_utf8_name_is_rejected() {
    let mut bytes = header_bytes(MIN_TMF_MAJOR, MIN_TMF_MINOR, 1);
    bytes.extend_from_slice(&2u16.to_le_bytes());
    bytes.extend_from_slice(&[0xff, 0xfe]);
    bytes.extend_from_slice(&0u16.to_le_bytes());
    let mut reader = Reader::new(bytes);
    assert!(matches!(read(&mut reader), Err(TMFImportError::InvalidUtf8)));
}

#[test]
fn round_trip_preserves_name_and_presence() {
    let mesh = sample_mesh();
    let prec = TMFPrecisionInfo::default();
    let mut out = Vec::new();
    tmf::tmf::write(&vec![(mesh, String::from("Cube"))], &mut out, &prec).unwrap();
    let mut reader = Reader::new(out);
    let meshes = read(&mut reader).unwrap();
    assert_eq!(meshes.len(), 1);
    let (back, name) = &meshes[0];
    assert_eq!(name, "Cube");
    assert!(back.get_vertices().is_some());
    assert!(back.get_vertex_triangles().is_some());
    assert!(back.get_normals().is_some());
    assert!(back.get_normal_triangles().is_some());
    assert!(back.get_uvs().is_some());
    assert!(back.get_uv_triangles().is_some());
    // Triangle indices survive byte for byte.
    assert_eq!(back.get_vertex_triangles().unwrap(), &vec![0, 1, 2, 1, 3, 2]);
    assert_eq!(back.get_uv_triangles().unwrap(), &vec![0, 1, 2, 0, 1, 2]);
}

#[test]
fn round_trip_vertex_error_is_within_step() {
    // Shortest edge is one unit, so the default precision gives a step
    // of UNIT / 1024 = 64 fixed-point units.
    let mesh = sample_mesh();
    let originals = mesh.get_vertices().unwrap().clone();
    let prec = TMFPrecisionInfo::default();
    let mut out = Vec::new();
    tmf::tmf::write(&vec![(mesh, String::from("q"))], &mut out, &prec).unwrap();
    let mut reader = Reader::new(out);
    let meshes = read(&mut reader).unwrap();
    let decoded = meshes[0].0.get_vertices().unwrap();
    assert_eq!(decoded.len(), originals.len());
    let step = 64i64;
    for (orig, dec) in originals.iter().zip(decoded.iter()) {
        assert!(orig.0 - step < dec.0 && dec.0 <= orig.0);
        assert!(orig.1 - step < dec.1 && dec.1 <= orig.1);
        assert!(orig.2 - step < dec.2 && dec.2 <= orig.2);
    }
}

#[test]
fn end_to_end_import_preserves_consistency() {
    // Write a full reference mesh, read it back through the concurrent
    // importer, and check name and internal consistency.
    let mesh = sample_mesh();
    assert!(mesh.verify().is_ok());
    let prec = TMFPrecisionInfo::default();
    let mut out = Vec::new();
    tmf::tmf::write(&vec![(mesh, String::from("Reference"))], &mut out, &prec).unwrap();
    let mut reader = Reader::new(out);
    let meshes = import_sync(&mut reader).unwrap();
    assert_eq!(meshes.len(), 1);
    assert_eq!(meshes[0].1, "Reference");
    assert!(meshes[0].0.verify().is_ok());
}

#[test]
fn import_matches_sync_read() {
    let mesh = sample_mesh();
    let prec = TMFPrecisionInfo::default();
    let mut out = Vec::new();
    tmf::tmf::write(&vec![(mesh, String::from("Twice"))], &mut out, &prec).unwrap();
    let mut r1 = Reader::new(out.clone());
    let mut r2 = Reader::new(out);
    let a = read(&mut r1).unwrap();
    let b = TMFImportContext::import(&mut r2).unwrap();
    assert_eq!(a.len(), b.len());
    assert_eq!(a[0].1, b[0].1);
    assert_eq!(
        a[0].0.get_vertices().unwrap(),
        b[0].0.get_vertices().unwrap()
    );
}

#[test]
fn read_mesh_reads_one_record() {
    let mesh = sample_mesh();
    let prec = TMFPrecisionInfo::default();
    let mut out = Vec::new();
    write_mesh(&mesh, &mut out, &prec, "solo").unwrap();
    let mut reader = Reader::new(out);
    let (back, name) = read_mesh(&mut reader).unwrap();
    assert_eq!(name, "solo");
    assert!(back.get_vertices().is_some());
}

#[test]
fn compact_profile_reads_narrow_fields_and_baseline() {
    // A header demanding minor version 2 switches to 8-bit tags, 32-bit
    // lengths, and a baseline index before each triangle payload.
    let mut bytes = header_bytes(TMF_MAJOR, 2, 1);
    bytes.extend_from_slice(&1u16.to_le_bytes());
    bytes.extend_from_slice("c".as_bytes());
    bytes.extend_from_slice(&1u16.to_le_bytes());
    let mut payload = Vec::new();
    payload.extend_from_slice(&10u64.to_le_bytes());
    payload.push(0u8);
    payload.extend_from_slice(&2u32.to_le_bytes());
    payload.extend_from_slice(&0u32.to_le_bytes());
    payload.extend_from_slice(&1u32.to_le_bytes());
    bytes.push(2u8);
    bytes.extend_from_slice(&(payload.len() as u32).to_le_bytes());
    bytes.extend_from_slice(&payload);
    let mut reader = Reader::new(bytes);
    let meshes = read(&mut reader).unwrap();
    assert_eq!(meshes[0].0.get_vertex_triangles().unwrap(), &vec![10, 11]);
}

#[test]
fn export_errors_are_reported_in_order() {
    let prec = TMFPrecisionInfo::default();
    // Triangles without their attribute array.
    let mut mesh = TMFMesh::empty();
    mesh.set_vertex_triangles(vec![0, 1, 2]);
    let mut out = Vec::new();
    assert_eq!(
        write_mesh(&mesh, &mut out, &prec, "m"),
        Err(TMFExportError::TrianglesWithoutAttribute)
    );
    // An index past its attribute array.
    let mut mesh = TMFMesh::empty();
    mesh.set_vertices(vec![(0, 0, 0)]);
    mesh.set_vertex_triangles(vec![0, 0, 1]);
    assert_eq!(
        write_mesh(&mesh, &mut out, &prec, "m"),
        Err(TMFExportError::IndexOutOfBounds)
    );
    // A component outside the codec's working range.
    let mut mesh = TMFMesh::empty();
    mesh.set_vertices(vec![(i64::MAX, 0, 0)]);
    assert_eq!(
        write_mesh(&mesh, &mut out, &prec, "m"),
        Err(TMFExportError::CoordOutOfRange)
    );
    // A name longer than its 16-bit length prefix.
    let mesh = TMFMesh::empty();
    let long_name = "x".repeat(70000);
    assert_eq!(
        write_mesh(&mesh, &mut out, &prec, &long_name),
        Err(TMFExportError::NameTooLong)
    );
    assert_eq!(out.len(), 0);
}

#[test]
fn verify_rejects_inconsistent_mesh() {
    let mut mesh = TMFMesh::empty();
    mesh.set_vertices(vec![(0, 0, 0), (UNIT, 0, 0)]);
    mesh.set_vertex_triangles(vec![0, 1, 5]);
    assert!(mesh.verify().is_err());
    let mut mesh = TMFMesh::empty();
    mesh.set_vertices(vec![(0, 0, 0), (UNIT, 0, 0)]);
    mesh.set_vertex_triangles(vec![0, 1]);
    assert!(mesh.verify().is_err());
    let mut mesh = TMFMesh::empty();
    mesh.set_vertices(vec![(0, 0, 0), (UNIT, 0, 0)]);
    mesh.set_vertex_triangles(vec![0, 1, 1]);
    assert!(mesh.verify().is_ok());
}

#[test]
fn section_tags_outside_known_set_are_invalid() {
    assert_eq!(SectionType::from_u16(1), SectionType::VertexSegment);
    assert_eq!(SectionType::from_u16(6), SectionType::UvTriangleSegment);
    assert_eq!(SectionType::from_u16(0), SectionType::Invalid);
    assert_eq!(SectionType::from_u16(7), SectionType::Invalid);
    assert_eq!(SectionType::from_u16(999), SectionType::Invalid);
    assert_eq!(SectionType::from_u8(3), SectionType::NormalSegment);
    assert_eq!(SectionType::VertexSegment.tag(), 1);
}

#[test]
fn multiple_meshes_keep_their_order() {
    let prec = TMFPrecisionInfo::default();
    let m1 = sample_mesh();
    let mut m2 = TMFMesh::empty();
    m2.set_uvs(vec![(1, 2), (3, 4)]);
    let mut out = Vec::new();
    tmf::tmf::write(
        &vec![(m1, String::from("first")), (m2, String::from("second"))],
        &mut out,
        &prec,
    )
    .unwrap();
    let mut reader = Reader::new(out);
    let meshes = read(&mut reader).unwrap();
    assert_eq!(meshes.len(), 2);
    assert_eq!(meshes[0].1, "first");
    assert_eq!(meshes[1].1, "second");
    assert!(meshes[1].0.get_uvs().is_some());
    assert!(meshes[1].0.get_vertices().is_none());
}

#[test]
fn non_ascii_names_survive_the_round_trip() {
    let mesh = sample_mesh();
    let prec = TMFPrecisionInfo::default();
    let mut out = Vec::new();
    tmf::tmf::write(
        &vec![(mesh, String::from("Suz\u{e4}nne \u{2603}"))],
        &mut out,
        &prec,
    )
    .unwrap();
    let mut reader = Reader::new(out);
    let meshes = read(&mut reader).unwrap();
    assert_eq!(meshes[0].1, "Suz\u{e4}nne \u{2603}");
}

#[test]
fn string_and_header_primitives() {
    let mut out = Vec::new();
    write_string(&mut out, "hello").unwrap();
    assert_eq!(out.len(), 7);
    let mut reader = Reader::new(out);
    assert_eq!(tmf::tmf::read_string(&mut reader).unwrap(), "hello");

    let mut out = Vec::new();
    out.extend_from_slice(&513u16.to_le_bytes());
    let mut reader = Reader::new(out);
    assert_eq!(read_u16(&mut reader).unwrap(), 513);

    let frame = legacy_frame(3, &[9, 9, 9]);
    let mut reader = Reader::new(frame);
    let (st, len) = read_segment_header(&mut reader).unwrap();
    assert_eq!(st, SectionType::NormalSegment);
    assert_eq!(len, 3);
}

#[test]
fn malformed_payload_is_rejected() {
    // A vertex segment whose payload is too short for its own header.
    let mut bytes = header_bytes(MIN_TMF_MAJOR, MIN_TMF_MINOR, 1);
    bytes.extend_from_slice(&1u16.to_le_bytes());
    bytes.extend_from_slice("m".as_bytes());
    bytes.extend_from_slice(&1u16.to_le_bytes());
    bytes.extend_from_slice(&legacy_frame(1, &[0, 0]));
    let mut reader = Reader::new(bytes);
    assert!(matches!(
        read(&mut reader),
        Err(TMFImportError::MalformedSegment)
    ));

    // A stored component whose scaled value leaves the working range.
    let mut payload = Vec::new();
    payload.extend_from_slice(&1u32.to_le_bytes());
    payload.extend_from_slice(&1u64.to_le_bytes());
    payload.extend_from_slice(&u64::MAX.to_le_bytes());
    payload.extend_from_slice(&0u64.to_le_bytes());
    payload.extend_from_slice(&0u64.to_le_bytes());
    let mut bytes = header_bytes(MIN_TMF_MAJOR, MIN_TMF_MINOR, 1);
    bytes.extend_from_slice(&1u16.to_le_bytes());
    bytes.extend_from_slice("m".as_bytes());
    bytes.extend_from_slice(&1u16.to_le_bytes());
    bytes.extend_from_slice(&legacy_frame(1, &payload));
    let mut reader = Reader::new(bytes);
    assert!(matches!(
        read(&mut reader),
        Err(TMFImportError::MalformedSegment)
    ));
}
