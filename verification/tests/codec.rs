use tmf::normals::map_prune;
use tmf::tmf::DecodedSegment;
use tmf::tmf_exporter::EncodeInfo;
use tmf::tmf_importer::{TMFHeader, TMFImportContext};
use tmf::utilis::{distance, fast_prune, isqrt, magnitude, normalize};
use tmf::vertices::{check_unit_run, split_runs};
use tmf::{TMFPrecisionInfo, MIN_TMF_MAJOR, MIN_TMF_MINOR, TMF_MAJOR, TMF_MINOR, UNIT};

#[test]
fn test_triangles_opt() {
    let mut tmp = Vec::with_capacity(1_000_000);
    for i in 0..1000 {
        tmp.push(i);
    }
    let tris = DecodedSegment::AppendTriangleVertex(tmp);
    let tris = tris.optimize();
    let tris: Vec<_> = tris
        .into_iter()
        .map(|seg| {
            seg.encode(&TMFPrecisionInfo::default(), &EncodeInfo::default())
                .unwrap()
        })
        .collect();
    let ctx = TMFImportContext::init_header(TMFHeader {
        major: TMF_MAJOR,
        minor: TMF_MINOR,
        min_major: MIN_TMF_MAJOR,
        min_minor: MIN_TMF_MINOR,
    });
    let tris: Vec<DecodedSegment> = tris
        .into_iter()
        .map(|seg| DecodedSegment::decode(seg, &ctx).unwrap())
        .collect();
    println!("{tris:?}");
    let mut curr = 0;
    for seg in tris.iter() {
        let values = if let DecodedSegment::AppendTriangleVertex(vals) = seg {
            vals
        } else {
            panic!()
        };
        for value in values.iter() {
            assert_eq!(*value, curr);
            curr += 1;
        }
    }
    assert_eq!(curr, 1000);
}

#[test]
fn optimizer_keeps_mixed_lists_in_order() {
    // A long run flanked by irregular indices: the chunks joined back in
    // order must be exactly the input.
    let mut indices: Vec<u32> = vec![7, 3, 3];
    for i in 100..300 {
        indices.push(i);
    }
    indices.push(5);
    let seg = DecodedSegment::AppendTriangleNormal(indices.clone());
    let parts = seg.optimize();
    let mut joined = Vec::new();
    for part in parts {
        if let DecodedSegment::AppendTriangleNormal(vals) = part {
            joined.extend_from_slice(&vals);
        } else {
            panic!();
        }
    }
    assert_eq!(joined, indices);
}

#[test]
fn split_runs_separates_long_runs() {
    let mut indices: Vec<u32> = vec![9, 9];
    for i in 0..200 {
        indices.push(i);
    }
    let chunks = split_runs(&indices);
    assert!(chunks.len() >= 2);
    let joined: Vec<u32> = chunks.concat();
    assert_eq!(joined, indices);
}

#[test]
fn unit_run_detection() {
    assert!(check_unit_run(&vec![5, 6, 7, 8]));
    assert!(!check_unit_run(&vec![5, 6, 8]));
    assert!(check_unit_run(&vec![]));
    assert!(check_unit_run(&vec![3]));
}

#[test]
fn shortest_edge_of_unit_right_triangle() {
    // Edges of length 1.0, 1.0 and the square root of two: the shortest
    // edge is exactly 1.0.
    let vertices = vec![(0i64, 0i64, 0i64), (UNIT, 0, 0), (0, UNIT, 0)];
    let triangles: Vec<u32> = vec![0, 1, 2];
    let se = tmf::tmf::calc_shortest_edge(Some(&triangles), Some(&vertices)).unwrap();
    assert_eq!(se, UNIT as u64);
}

#[test]
fn shortest_edge_defaults_to_one_unit() {
    assert_eq!(
        tmf::tmf::calc_shortest_edge(None, None).unwrap(),
        UNIT as u64
    );
    let vertices = vec![(0i64, 0i64, 0i64)];
    assert_eq!(
        tmf::tmf::calc_shortest_edge(None, Some(&vertices)).unwrap(),
        UNIT as u64
    );
}

#[test]
fn shortest_edge_without_vertices_is_an_error() {
    let triangles: Vec<u32> = vec![0, 1, 2];
    assert!(tmf::tmf::calc_shortest_edge(Some(&triangles), None).is_err());
}

#[test]
fn integer_square_roots() {
    assert_eq!(isqrt(0), 0);
    assert_eq!(isqrt(1), 1);
    assert_eq!(isqrt(3), 1);
    assert_eq!(isqrt(4), 2);
    assert_eq!(isqrt(99), 9);
    assert_eq!(isqrt(100), 10);
    assert_eq!(isqrt((1u128 << 80) - 1), (1u64 << 40) - 1);
}

#[test]
fn distances_and_magnitudes() {
    let a = (0i64, 0i64, 0i64);
    let b = (3 * UNIT, 4 * UNIT, 0);
    assert_eq!(distance(a, b), 5 * UNIT as u64);
    assert_eq!(magnitude(b), 5 * UNIT as u64);
    // The diagonal of the unit square, rounded down.
    assert_eq!(distance(a, (UNIT, UNIT, 0)), 92681);
}

#[test]
fn normalize_scales_to_unit_length() {
    assert_eq!(normalize((2 * UNIT, 0, 0)), (UNIT, 0, 0));
    assert_eq!(normalize((0, -3 * UNIT, 0)), (0, -UNIT, 0));
    let n = normalize((3 * UNIT, 4 * UNIT, 0));
    assert_eq!(n, ((3 * UNIT) / 5, (4 * UNIT) / 5, 0));
}

#[test]
fn fast_prune_rebases_indices() {
    let mut data = vec![(1i64, 0i64, 0i64), (2, 0, 0), (3, 0, 0), (4, 0, 0)];
    let mut indices: Vec<u32> = vec![2, 3, 2];
    fast_prune(&mut data, &mut indices);
    assert_eq!(data, vec![(3, 0, 0), (4, 0, 0)]);
    assert_eq!(indices, vec![0, 1, 0]);
}

#[test]
fn fast_prune_leaves_zero_based_indices_alone() {
    let mut data = vec![(1i64, 0i64, 0i64), (2, 0, 0)];
    let mut indices: Vec<u32> = vec![1, 0, 1];
    fast_prune(&mut data, &mut indices);
    assert_eq!(data.len(), 2);
    assert_eq!(indices, vec![1, 0, 1]);
}

#[test]
fn map_prune_collapses_near_duplicates() {
    // At the default normal precision the tolerance is UNIT / 256 = 256
    // fixed-point units, so a 100-unit difference collapses.
    let mut normals = vec![(UNIT, 0, 0), (UNIT + 100, 0, 0), (0, UNIT, 0)];
    let mut triangles: Vec<u32> = vec![0, 1, 2, 1, 2, 0];
    let p = TMFPrecisionInfo::default();
    map_prune(&mut normals, &mut triangles, 0x100_0000, &p);
    assert_eq!(normals.len(), 2);
    assert_eq!(triangles.len(), 6);
    for t in &triangles {
        assert!((*t as usize) < normals.len());
    }
    assert_eq!(triangles[0], triangles[1]);
}

#[test]
fn map_prune_drops_unreferenced_entries() {
    let mut normals = vec![(UNIT, 0, 0), (0, UNIT, 0), (0, 0, UNIT)];
    let mut triangles: Vec<u32> = vec![2, 2, 2];
    let p = TMFPrecisionInfo::default();
    map_prune(&mut normals, &mut triangles, 0x100_0000, &p);
    assert_eq!(normals, vec![(0, 0, UNIT)]);
    assert_eq!(triangles, vec![0, 0, 0]);
}

#[test]
fn pruning_on_write_keeps_the_mesh_readable() {
    let mut mesh = tmf::mesh::TMFMesh::empty();
    mesh.set_normals(vec![(UNIT, 0, 0), (UNIT + 50, 0, 0), (0, UNIT, 0)]);
    mesh.set_normal_triangles(vec![0, 1, 2, 2, 1, 0]);
    let mut p = TMFPrecisionInfo::default();
    p.prune_normals = true;
    let mut out = Vec::new();
    tmf::tmf::write(&vec![(mesh, String::from("pruned"))], &mut out, &p).unwrap();
    let mut reader = tmf::reader::Reader::new(out);
    let meshes = tmf::tmf::read(&mut reader).unwrap();
    let back = &meshes[0].0;
    assert_eq!(back.get_normals().unwrap().len(), 2);
    assert_eq!(back.get_normal_triangles().unwrap().len(), 6);
    assert!(back.verify().is_ok());
}

#[test]
fn default_precision_values() {
    let p = TMFPrecisionInfo::default();
    assert_eq!(p.vertex_precision, 1024);
    assert_eq!(p.normal_precision, 256);
    assert_eq!(p.uv_precision, 1024);
    assert!(!p.prune_normals);
    let e = EncodeInfo::default();
    assert_eq!(e.shortest_edge, UNIT as u64);
}
