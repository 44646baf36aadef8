//! The normal array codec and the pruning pass that deduplicates
//! near-equal normals before writing.

use vstd::prelude::*;

use crate::mesh::vec3s_in_range;
use crate::vertices::{decode_vec3_payload, encode_vec3_payload, parse_vec3_payload, vec3_payload};
use crate::{
    coord_in_range, step_of, IndexType, TMFImportError, TMFPrecisionInfo, Vector3, UNIT,
};

verus! {

/// True when two normals agree to within `tol` on every component.
pub open spec fn within_tol(a: Vector3, b: Vector3, tol: u64) -> bool {
    &&& -(tol as int) <= a.0 - b.0 <= tol as int
    &&& -(tol as int) <= a.1 - b.1 <= tol as int
    &&& -(tol as int) <= a.2 - b.2 <= tol as int
}

/// True when every entry of `xs` appears somewhere in `ys`.
pub open spec fn subset_of(xs: Seq<Vector3>, ys: Seq<Vector3>) -> bool {
    forall|j: int|
        0 <= j < xs.len() ==> exists|i: int| 0 <= i < ys.len() && (#[trigger] xs[j]) == ys[i]
}

/// What pruning promises: the triangle array keeps its length, every
/// rewritten index lands in the pruned array, the pruned array holds
/// only entries taken from the original, grows no longer than the
/// triangle array, stays in the codec's range, and every rewritten index
/// points at a normal within the precision-derived tolerance of the one
/// it replaces.
pub open spec fn prune_post(
    old_normals: Seq<Vector3>,
    old_tris: Seq<IndexType>,
    new_normals: Seq<Vector3>,
    new_tris: Seq<IndexType>,
    tol: u64,
) -> bool {
    &&& new_tris.len() == old_tris.len()
    &&& forall|t: int| 0 <= t < new_tris.len() ==> (#[trigger] new_tris[t]) < new_normals.len()
    &&& subset_of(new_normals, old_normals)
    &&& new_normals.len() <= old_tris.len()
    &&& vec3s_in_range(new_normals)
    &&& forall|t: int|
        0 <= t < new_tris.len() ==> within_tol(
            old_normals[old_tris[t] as int],
            new_normals[(#[trigger] new_tris[t]) as int],
            tol,
        )
}

/// True when one component pair agrees to within `tol`.
fn close_component(a: i64, b: i64, tol: u64) -> (r: bool)
    requires
        coord_in_range(a),
        coord_in_range(b),
        tol <= 0x8000_0000_0000_0000,
    ensures
        r == (-(tol as int) <= a - b <= tol as int),
{
    if a >= b {
        (a - b) as u64 <= tol
    } else {
        (b - a) as u64 <= tol
    }
}

/// Deduplicates the normals a triangle array references, collapsing
/// entries that agree to within the precision-derived tolerance, and
/// rewrites the triangle indices to the deduplicated array. Unreferenced
/// entries are dropped. The search for an earlier match looks at no more
/// than `max_entries` kept entries, capping the mapping cost; entries
/// kept past that bound are no longer merged with.
pub fn map_prune(
    normals: &mut Vec<Vector3>,
    normal_triangles: &mut Vec<IndexType>,
    max_entries: usize,
    p_info: &TMFPrecisionInfo,
)
    requires
        vec3s_in_range(old(normals)@),
        forall|t: int| 0 <= t < old(normal_triangles)@.len() ==> (#[trigger] old(
            normal_triangles,
        )@[t]) < old(normals)@.len(),
        old(normal_triangles)@.len() <= u32::MAX,
    ensures
        prune_post(
            old(normals)@,
            old(normal_triangles)@,
            final(normals)@,
            final(normal_triangles)@,
            step_of(UNIT as u64, p_info.normal_precision),
        ),
{
    let tol = crate::compute_step(UNIT as u64, p_info.normal_precision);
    let mut kept: Vec<Vector3> = Vec::new();
    let mut new_tris: Vec<IndexType> = Vec::new();
    let mut t: usize = 0;
    while t < normal_triangles.len()
        invariant
            *normals == *old(normals),
            *normal_triangles == *old(normal_triangles),
            vec3s_in_range(normals@),
            forall|k: int| 0 <= k < normal_triangles@.len() ==> (#[trigger] normal_triangles@[k])
                < normals@.len(),
            normal_triangles@.len() <= u32::MAX,
            1 <= tol <= crate::STEP_LIMIT,
            tol == step_of(UNIT as u64, p_info.normal_precision),
            t <= normal_triangles@.len(),
            new_tris@.len() == t,
            kept@.len() <= t,
            kept@.len() <= u32::MAX,
            vec3s_in_range(kept@),
            subset_of(kept@, normals@),
            forall|k: int| 0 <= k < t ==> (#[trigger] new_tris@[k]) < kept@.len(),
            forall|k: int|
                0 <= k < t ==> within_tol(
                    normals@[normal_triangles@[k] as int],
                    kept@[(#[trigger] new_tris@[k]) as int],
                    tol,
                ),
        decreases normal_triangles@.len() - t,
    {
        let v = normals[normal_triangles[t] as usize];
        let search_limit = if kept.len() < max_entries {
            kept.len()
        } else {
            max_entries
        };
        let mut j: usize = 0;
        let mut found: bool = false;
        let mut found_at: usize = 0;
        while j < search_limit && !found
            invariant
                search_limit <= kept@.len(),
                j <= search_limit,
                vec3s_in_range(kept@),
                coord_in_range(v.0) && coord_in_range(v.1) && coord_in_range(v.2),
                1 <= tol <= crate::STEP_LIMIT,
                found ==> found_at < kept@.len() && within_tol(
                    v,
                    kept@[found_at as int],
                    tol,
                ),
            decreases search_limit - j,
        {
            let k = kept[j];
            if close_component(v.0, k.0, tol) && close_component(v.1, k.1, tol)
                && close_component(v.2, k.2, tol) {
                found = true;
                found_at = j;
            }
            j = j + 1;
        }
        if found {
            new_tris.push(found_at as u32);
        } else {
            let ghost kb = kept@;
            kept.push(v);
            new_tris.push((kept.len() - 1) as u32);
            proof {
                let i = normal_triangles@[t as int] as int;
                assert(within_tol(v, v, tol));
                assert forall|j: int| 0 <= j < kept@.len() implies exists|i2: int|
                    0 <= i2 < normals@.len() && (#[trigger] kept@[j]) == normals@[i2] by {
                    if j == kept@.len() - 1 {
                        assert(0 <= i < normals@.len() && kept@[j] == normals@[i]);
                    } else {
                        assert(kept@[j] == kb[j]);
                        assert(exists|i2: int|
                            0 <= i2 < normals@.len() && kb[j] == normals@[i2]);
                    }
                }
                assert(subset_of(kept@, normals@));
            }
        }
        t = t + 1;
    }
    *normals = kept;
    *normal_triangles = new_tris;
}

/// Appends a normal array's payload, quantized at the normal precision.
pub fn save_normal_array(
    normals: &Vec<Vector3>,
    curr_segment_data: &mut Vec<u8>,
    normal_precision: u32,
)
    requires
        normals@.len() <= u32::MAX,
        vec3s_in_range(normals@),
    ensures
        final(curr_segment_data)@ == old(curr_segment_data)@ + vec3_payload(
            normals@,
            step_of(UNIT as u64, normal_precision),
        ),
{
    let step = crate::compute_step(UNIT as u64, normal_precision);
    encode_vec3_payload(normals, step, curr_segment_data);
}

/// Decodes a normal array payload, exactly as [`parse_vec3_payload`]
/// says.
pub fn read_normal_array(data: &Vec<u8>) -> (r: Result<Vec<Vector3>, TMFImportError>)
    ensures
        match parse_vec3_payload(data@) {
            Ok(vs) => r matches Ok(v) && v@ == vs,
            Err(e) => r == Err::<Vec<Vector3>, TMFImportError>(e),
        },
{
    decode_vec3_payload(data)
}

} // verus!
