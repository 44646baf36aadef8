//! The UV-coordinate array codec: the position codec's scheme with two
//! components per entry.
//!
//! Payload layout: entry count (u32), quantization step (u64), then two
//! quantized components (u64 each) per entry.

use vstd::bytes::{
    lemma_auto_spec_u32_to_from_le_bytes, lemma_auto_spec_u64_to_from_le_bytes,
    spec_u32_from_le_bytes, spec_u32_to_le_bytes, spec_u64_from_le_bytes, spec_u64_to_le_bytes,
    u32_from_le_bytes, u64_from_le_bytes,
};
use vstd::prelude::*;
use vstd::slice::slice_subrange;

use crate::mesh::vec2s_in_range;
use crate::reader::{write_u32, write_u64};
use crate::vertices::{dequant, lemma_quant_error, quant, quant_trip, valid_q};
use crate::{coord_in_range, TMFImportError, Vector2, COORD_LIMIT, STEP_LIMIT, UNIT};

verus! {

/// What one UV pair becomes after a store-and-load round trip.
pub open spec fn quant_trip2(v: Vector2, step: u64) -> Vector2 {
    (quant_trip(v.0, step), quant_trip(v.1, step))
}

/// The bytes of one quantized UV pair.
pub open spec fn pair_bytes(v: Vector2, step: u64) -> Seq<u8> {
    spec_u64_to_le_bytes(quant(v.0, step) as u64) + spec_u64_to_le_bytes(quant(v.1, step) as u64)
}

/// The bytes of an array's quantized UV pairs, in order.
pub open spec fn vec2_values_bytes(vs: Seq<Vector2>, step: u64) -> Seq<u8>
    decreases vs.len(),
{
    if vs.len() == 0 {
        Seq::empty()
    } else {
        vec2_values_bytes(vs.drop_last(), step) + pair_bytes(vs.last(), step)
    }
}

/// A whole UV array payload: count, step, quantized pairs.
pub open spec fn vec2_payload(vs: Seq<Vector2>, step: u64) -> Seq<u8> {
    spec_u32_to_le_bytes(vs.len() as u32) + spec_u64_to_le_bytes(step) + vec2_values_bytes(
        vs,
        step,
    )
}

/// The stored component `j` of entry `i` in a payload.
pub open spec fn q2_at(s: Seq<u8>, i: int, j: int) -> u64 {
    spec_u64_from_le_bytes(s.subrange(12 + 16 * i + 8 * j, 12 + 16 * i + 8 * j + 8))
}

/// What a UV array payload means: the array it decodes to, or the
/// condition it breaks.
pub open spec fn parse_vec2_payload(s: Seq<u8>) -> Result<Seq<Vector2>, TMFImportError> {
    if s.len() < 12 {
        Err(TMFImportError::MalformedSegment)
    } else {
        let count = spec_u32_from_le_bytes(s.subrange(0, 4)) as int;
        let step = spec_u64_from_le_bytes(s.subrange(4, 12));
        if step < 1 || step > STEP_LIMIT {
            Err(TMFImportError::MalformedSegment)
        } else if s.len() != 12 + 16 * count {
            Err(TMFImportError::MalformedSegment)
        } else if !(forall|i: int, j: int|
            0 <= i < count && 0 <= j < 2 ==> valid_q(#[trigger] q2_at(s, i, j), step)) {
            Err(TMFImportError::MalformedSegment)
        } else {
            Ok(
                Seq::new(
                    count as nat,
                    |i: int|
                        (
                            dequant(q2_at(s, i, 0) as int, step) as i64,
                            dequant(q2_at(s, i, 1) as int, step) as i64,
                        ),
                ),
            )
        }
    }
}

/// Appends the payload of a UV array to `out`.
pub fn encode_vec2_payload(vs: &Vec<Vector2>, step: u64, out: &mut Vec<u8>)
    requires
        vs@.len() <= u32::MAX,
        vec2s_in_range(vs@),
        1 <= step <= STEP_LIMIT,
    ensures
        final(out)@ == old(out)@ + vec2_payload(vs@, step),
{
    write_u32(out, vs.len() as u32);
    write_u64(out, step);
    let ghost base = out@;
    let mut i: usize = 0;
    while i < vs.len()
        invariant
            i <= vs@.len(),
            vs@.len() <= u32::MAX,
            vec2s_in_range(vs@),
            1 <= step <= STEP_LIMIT,
            out@ == base + vec2_values_bytes(vs@.take(i as int), step),
        decreases vs@.len() - i,
    {
        let v = vs[i];
        proof {
            assert(coord_in_range(v.0) && coord_in_range(v.1));
            lemma_quant_error(v.0, step);
            lemma_quant_error(v.1, step);
            vstd::arithmetic::div_mod::lemma_div_is_ordered_by_denominator(
                v.0 + COORD_LIMIT,
                1,
                step as int,
            );
            vstd::arithmetic::div_mod::lemma_div_is_ordered_by_denominator(
                v.1 + COORD_LIMIT,
                1,
                step as int,
            );
        }
        let x0: u64 = (v.0 + COORD_LIMIT) as u64;
        write_u64(out, x0 / step);
        let x1: u64 = (v.1 + COORD_LIMIT) as u64;
        write_u64(out, x1 / step);
        i = i + 1;
        proof {
            let t = vs@.take(i as int);
            assert(t.drop_last() =~= vs@.take(i - 1));
            assert(t.last() == vs@[i - 1]);
            assert(out@ =~= base + vec2_values_bytes(t, step));
        }
    }
    proof {
        assert(vs@.take(vs@.len() as int) =~= vs@);
        assert(final(out)@ =~= old(out)@ + vec2_payload(vs@, step));
    }
}

/// Decodes a UV array payload, exactly as [`parse_vec2_payload`] says.
pub fn decode_vec2_payload(data: &Vec<u8>) -> (r: Result<Vec<Vector2>, TMFImportError>)
    ensures
        match parse_vec2_payload(data@) {
            Ok(vs) => r matches Ok(v) && v@ == vs,
            Err(e) => r == Err::<Vec<Vector2>, TMFImportError>(e),
        },
{
    if data.len() < 12 {
        return Err(TMFImportError::MalformedSegment);
    }
    let count_bytes = slice_subrange(data.as_slice(), 0, 4);
    let count = u32_from_le_bytes(count_bytes);
    let step_bytes = slice_subrange(data.as_slice(), 4, 12);
    let step = u64_from_le_bytes(step_bytes);
    proof {
        assert(count_bytes@ =~= data@.subrange(0, 4));
        assert(step_bytes@ =~= data@.subrange(4, 12));
    }
    if step < 1 || step > STEP_LIMIT {
        return Err(TMFImportError::MalformedSegment);
    }
    if !(data.len() >= 12 && (data.len() - 12) % 16 == 0 && ((data.len() - 12) / 16) as u64
        == count as u64) {
        proof {
            assert(data@.len() != 12 + 16 * (count as int)) by (nonlinear_arith)
                requires
                    data@.len() >= 12,
                    !((data@.len() - 12) % 16 == 0 && (data@.len() - 12) / 16 == count as int),
            ;
        }
        return Err(TMFImportError::MalformedSegment);
    }
    proof {
        assert(data@.len() == 12 + 16 * (count as int)) by (nonlinear_arith)
            requires
                data@.len() >= 12,
                (data@.len() - 12) % 16 == 0,
                (data@.len() - 12) / 16 == count as int,
        ;
    }
    let mut out: Vec<Vector2> = Vec::new();
    let mut i: usize = 0;
    while i < count as usize
        invariant
            i <= count,
            data@.len() == 12 + 16 * (count as int),
            1 <= step <= STEP_LIMIT,
            count == spec_u32_from_le_bytes(data@.subrange(0, 4)),
            step == spec_u64_from_le_bytes(data@.subrange(4, 12)),
            forall|a: int, b: int|
                0 <= a < i && 0 <= b < 2 ==> valid_q(#[trigger] q2_at(data@, a, b), step),
            out@.len() == i,
            forall|a: int|
                0 <= a < i ==> #[trigger] out@[a] == (
                    dequant(q2_at(data@, a, 0) as int, step) as i64,
                    dequant(q2_at(data@, a, 1) as int, step) as i64,
                ),
        decreases count - i,
    {
        let c0 = read_component2(data, i, 0, step);
        let c1 = read_component2(data, i, 1, step);
        match (c0, c1) {
            (Some(a), Some(b)) => {
                out.push((a, b));
            },
            _ => {
                return Err(TMFImportError::MalformedSegment);
            },
        }
        i = i + 1;
    }
    proof {
        assert(parse_vec2_payload(data@) matches Ok(vs) && out@ =~= vs);
    }
    Ok(out)
}

/// Reads and scales back one stored component; `None` when it falls
/// outside the working range.
fn read_component2(data: &Vec<u8>, i: usize, j: usize, step: u64) -> (r: Option<i64>)
    requires
        j < 2,
        12 + 16 * (i as int) + 8 * (j as int) + 8 <= data@.len(),
        1 <= step <= STEP_LIMIT,
    ensures
        valid_q(q2_at(data@, i as int, j as int), step) ==> r == Some(
            dequant(q2_at(data@, i as int, j as int) as int, step) as i64,
        ),
        !valid_q(q2_at(data@, i as int, j as int), step) ==> r is None,
{
    let n: usize = data.len();
    proof {
        assert(12 + 16 * (i as int) + 8 * (j as int) + 8 <= n);
    }
    let off: usize = 12 + 16 * i + 8 * j;
    let bytes = slice_subrange(data.as_slice(), off, off + 8);
    let q = u64_from_le_bytes(bytes);
    proof {
        assert(bytes@ =~= data@.subrange(
            12 + 16 * (i as int) + 8 * (j as int),
            12 + 16 * (i as int) + 8 * (j as int) + 8,
        ));
    }
    if q > 2 * (COORD_LIMIT as u64) {
        proof {
            assert(q * step > 2 * COORD_LIMIT) by (nonlinear_arith)
                requires
                    q > 2 * COORD_LIMIT,
                    step >= 1,
            ;
        }
        return None;
    }
    proof {
        assert((q as int) * (step as int) <= 0x8_0000_0000_0000_0000_0000) by (nonlinear_arith)
            requires
                q <= 0x200_0000_0000u64,
                step <= 0x400_0000_0000u64,
        ;
    }
    let prod: u128 = (q as u128) * (step as u128);
    if prod > 2 * (COORD_LIMIT as u128) {
        None
    } else {
        Some((prod as i64) - COORD_LIMIT)
    }
}

/// Component `j` of a UV pair.
pub open spec fn component2(v: Vector2, j: int) -> i64 {
    if j == 0 {
        v.0
    } else {
        v.1
    }
}

/// The pairs' bytes take 16 bytes per entry.
pub(crate) proof fn lemma_vec2_values_len(vs: Seq<Vector2>, step: u64)
    ensures
        vec2_values_bytes(vs, step).len() == 16 * vs.len(),
    decreases vs.len(),
{
    lemma_auto_spec_u64_to_from_le_bytes();
    if vs.len() > 0 {
        lemma_vec2_values_len(vs.drop_last(), step);
    }
}

/// Component `j` of entry `i` sits at its fixed offset in the pairs'
/// bytes.
proof fn lemma_vec2_values_at(vs: Seq<Vector2>, step: u64, i: int, j: int)
    requires
        0 <= i < vs.len(),
        0 <= j < 2,
    ensures
        vec2_values_bytes(vs, step).subrange(16 * i + 8 * j, 16 * i + 8 * j + 8)
            == spec_u64_to_le_bytes(quant(component2(vs[i], j), step) as u64),
    decreases vs.len(),
{
    lemma_vec2_values_len(vs, step);
    lemma_auto_spec_u64_to_from_le_bytes();
    let whole = vec2_values_bytes(vs, step);
    if i == vs.len() - 1 {
        lemma_vec2_values_len(vs.drop_last(), step);
        assert(whole.subrange(16 * i + 8 * j, 16 * i + 8 * j + 8) =~= pair_bytes(
            vs.last(),
            step,
        ).subrange(8 * j, 8 * j + 8));
        assert(pair_bytes(vs.last(), step).subrange(8 * j, 8 * j + 8) =~= spec_u64_to_le_bytes(
            quant(component2(vs[i], j), step) as u64,
        ));
    } else {
        lemma_vec2_values_at(vs.drop_last(), step, i, j);
        lemma_vec2_values_len(vs.drop_last(), step);
        assert(whole.subrange(16 * i + 8 * j, 16 * i + 8 * j + 8) =~= vec2_values_bytes(
            vs.drop_last(),
            step,
        ).subrange(16 * i + 8 * j, 16 * i + 8 * j + 8));
        assert(vs.drop_last()[i] == vs[i]);
    }
}

/// Storing then loading a UV array keeps its length and moves every
/// component down by less than one step.
pub proof fn lemma_vec2_codec_trip(vs: Seq<Vector2>, step: u64)
    requires
        vs.len() <= u32::MAX,
        vec2s_in_range(vs),
        1 <= step <= STEP_LIMIT,
    ensures
        parse_vec2_payload(vec2_payload(vs, step)) == Ok::<Seq<Vector2>, TMFImportError>(
            Seq::new(vs.len(), |i: int| quant_trip2(vs[i], step)),
        ),
{
    let s = vec2_payload(vs, step);
    lemma_auto_spec_u32_to_from_le_bytes();
    lemma_auto_spec_u64_to_from_le_bytes();
    lemma_vec2_values_len(vs, step);
    assert(s.subrange(0, 4) =~= spec_u32_to_le_bytes(vs.len() as u32));
    assert(s.subrange(4, 12) =~= spec_u64_to_le_bytes(step));
    assert(s.len() == 12 + 16 * vs.len());
    assert forall|i: int, j: int| 0 <= i < vs.len() && 0 <= j < 2 implies #[trigger] q2_at(s, i, j)
        == quant(component2(vs[i], j), step) as u64 && valid_q(q2_at(s, i, j), step) by {
        lemma_vec2_values_at(vs, step, i, j);
        lemma_quant_error(component2(vs[i], j), step);
        assert(s.subrange(12 + 16 * i + 8 * j, 12 + 16 * i + 8 * j + 8) =~= vec2_values_bytes(
            vs,
            step,
        ).subrange(16 * i + 8 * j, 16 * i + 8 * j + 8));
    }
    match parse_vec2_payload(s) {
        Ok(got) => {
            assert(got =~= Seq::new(vs.len(), |i: int| quant_trip2(vs[i], step)));
        },
        Err(_) => {
            assert(false);
        },
    }
}


/// Appends a UV array's payload, quantized at the given precision.
pub fn save_uvs(uvs: &Vec<Vector2>, curr_segment_data: &mut Vec<u8>, uv_precision: u32)
    requires
        uvs@.len() <= u32::MAX,
        vec2s_in_range(uvs@),
    ensures
        final(curr_segment_data)@ == old(curr_segment_data)@ + vec2_payload(
            uvs@,
            crate::step_of(UNIT as u64, uv_precision),
        ),
{
    let step = crate::compute_step(UNIT as u64, uv_precision);
    encode_vec2_payload(uvs, step, curr_segment_data);
}

/// Decodes a UV array payload, exactly as [`parse_vec2_payload`] says.
pub fn read_uvs(data: &Vec<u8>) -> (r: Result<Vec<Vector2>, TMFImportError>)
    ensures
        match parse_vec2_payload(data@) {
            Ok(vs) => r matches Ok(v) && v@ == vs,
            Err(e) => r == Err::<Vec<Vector2>, TMFImportError>(e),
        },
{
    decode_vec2_payload(data)
}

} // verus!
