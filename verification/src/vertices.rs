//! The position/normal array codec: quantization to a step, and the
//! triangle-index array codec with its run form.
//!
//! A 3-component array payload is laid out as: component count (u32), the
//! quantization step (u64), then three quantized components (u64 each)
//! per vector. A component `c` is stored as `(c + COORD_LIMIT) / step`,
//! rounded down; decoding scales back and re-centres, so every decoded
//! component lands within one step below the original.

use vstd::arithmetic::div_mod::{
    lemma_div_is_ordered_by_denominator, lemma_fundamental_div_mod,
    lemma_mod_division_less_than_divisor,
};
use vstd::bytes::{
    lemma_auto_spec_u32_to_from_le_bytes, lemma_auto_spec_u64_to_from_le_bytes,
    spec_u32_from_le_bytes, spec_u32_to_le_bytes, spec_u64_from_le_bytes, spec_u64_to_le_bytes,
    u32_from_le_bytes, u64_from_le_bytes,
};
use vstd::prelude::*;
use vstd::slice::{slice_subrange, slice_to_vec};

use crate::mesh::vec3s_in_range;
use crate::reader::{write_u32, write_u64};
use crate::{coord_in_range, IndexType, TMFImportError, Vector3, COORD_LIMIT, STEP_LIMIT};

verus! {

/// The stored form of a component: its offset above the working range's
/// floor, in whole steps, rounded down.
pub open spec fn quant(c: i64, step: u64) -> int {
    (c + COORD_LIMIT) / (step as int)
}

/// The component a stored value stands for.
pub open spec fn dequant(q: int, step: u64) -> int {
    q * step - COORD_LIMIT
}

/// What one component becomes after a store-and-load round trip.
pub open spec fn quant_trip(c: i64, step: u64) -> i64 {
    dequant(quant(c, step), step) as i64
}

/// What one vector becomes after a store-and-load round trip.
pub open spec fn quant_trip3(v: Vector3, step: u64) -> Vector3 {
    (quant_trip(v.0, step), quant_trip(v.1, step), quant_trip(v.2, step))
}

/// Quantization loses less than one step, never rounds up, and keeps the
/// component inside the working range.
pub proof fn lemma_quant_error(c: i64, step: u64)
    requires
        coord_in_range(c),
        1 <= step,
    ensures
        c - step < quant_trip(c, step) <= c,
        coord_in_range(quant_trip(c, step)),
        0 <= quant(c, step),
        quant(c, step) * step <= 2 * COORD_LIMIT,
{
    let x = c + COORD_LIMIT;
    let d = step as int;
    lemma_fundamental_div_mod(x, d);
    lemma_mod_division_less_than_divisor(x, d);
    let q = x / d;
    assert(x == d * q + x % d);
    assert(d * q == q * d) by (nonlinear_arith);
    assert(quant(c, step) == q);
    assert(dequant(q, step) == q * d - COORD_LIMIT);
    assert(dequant(quant(c, step), step) == c - x % d);
    assert(0 <= x / d) by (nonlinear_arith)
        requires
            x >= 0,
            d >= 1,
    ;
}

/// A stored component is acceptable when scaling it back stays inside the
/// working range.
pub open spec fn valid_q(q: u64, step: u64) -> bool {
    q * step <= 2 * COORD_LIMIT
}

/// The bytes of one quantized vector.
pub open spec fn triple_bytes(v: Vector3, step: u64) -> Seq<u8> {
    spec_u64_to_le_bytes(quant(v.0, step) as u64) + spec_u64_to_le_bytes(quant(v.1, step) as u64)
        + spec_u64_to_le_bytes(quant(v.2, step) as u64)
}

/// The bytes of an array's quantized vectors, in order.
pub open spec fn vec3_values_bytes(vs: Seq<Vector3>, step: u64) -> Seq<u8>
    decreases vs.len(),
{
    if vs.len() == 0 {
        Seq::empty()
    } else {
        vec3_values_bytes(vs.drop_last(), step) + triple_bytes(vs.last(), step)
    }
}

/// A whole 3-component array payload: count, step, quantized vectors.
pub open spec fn vec3_payload(vs: Seq<Vector3>, step: u64) -> Seq<u8> {
    spec_u32_to_le_bytes(vs.len() as u32) + spec_u64_to_le_bytes(step) + vec3_values_bytes(
        vs,
        step,
    )
}

/// The stored component `j` of vector `i` in a payload.
pub open spec fn q_at(s: Seq<u8>, i: int, j: int) -> u64 {
    spec_u64_from_le_bytes(s.subrange(12 + 24 * i + 8 * j, 12 + 24 * i + 8 * j + 8))
}

/// What a 3-component array payload means: the vector array it decodes
/// to, or the condition it breaks.
pub open spec fn parse_vec3_payload(s: Seq<u8>) -> Result<Seq<Vector3>, TMFImportError> {
    if s.len() < 12 {
        Err(TMFImportError::MalformedSegment)
    } else {
        let count = spec_u32_from_le_bytes(s.subrange(0, 4)) as int;
        let step = spec_u64_from_le_bytes(s.subrange(4, 12));
        if step < 1 || step > STEP_LIMIT {
            Err(TMFImportError::MalformedSegment)
        } else if s.len() != 12 + 24 * count {
            Err(TMFImportError::MalformedSegment)
        } else if !(forall|i: int, j: int|
            0 <= i < count && 0 <= j < 3 ==> valid_q(#[trigger] q_at(s, i, j), step)) {
            Err(TMFImportError::MalformedSegment)
        } else {
            Ok(
                Seq::new(
                    count as nat,
                    |i: int|
                        (
                            dequant(q_at(s, i, 0) as int, step) as i64,
                            dequant(q_at(s, i, 1) as int, step) as i64,
                            dequant(q_at(s, i, 2) as int, step) as i64,
                        ),
                ),
            )
        }
    }
}

/// Appends the payload of a 3-component array to `out`.
pub fn encode_vec3_payload(vs: &Vec<Vector3>, step: u64, out: &mut Vec<u8>)
    requires
        vs@.len() <= u32::MAX,
        vec3s_in_range(vs@),
        1 <= step <= STEP_LIMIT,
    ensures
        final(out)@ == old(out)@ + vec3_payload(vs@, step),
{
    write_u32(out, vs.len() as u32);
    write_u64(out, step);
    let ghost base = out@;
    let mut i: usize = 0;
    while i < vs.len()
        invariant
            i <= vs@.len(),
            vs@.len() <= u32::MAX,
            vec3s_in_range(vs@),
            1 <= step <= STEP_LIMIT,
            out@ == base + vec3_values_bytes(vs@.take(i as int), step),
        decreases vs@.len() - i,
    {
        let v = vs[i];
        proof {
            assert(coord_in_range(v.0) && coord_in_range(v.1) && coord_in_range(v.2));
        }
        write_quant(out, v.0, step);
        write_quant(out, v.1, step);
        write_quant(out, v.2, step);
        i = i + 1;
        proof {
            let t = vs@.take(i as int);
            assert(t.drop_last() =~= vs@.take(i - 1));
            assert(t.last() == vs@[i - 1]);
            assert(out@ =~= base + vec3_values_bytes(t, step));
        }
    }
    proof {
        assert(vs@.take(vs@.len() as int) =~= vs@);
        assert(final(out)@ =~= old(out)@ + vec3_payload(vs@, step));
    }
}

/// Appends one quantized component.
fn write_quant(out: &mut Vec<u8>, c: i64, step: u64)
    requires
        coord_in_range(c),
        1 <= step,
    ensures
        final(out)@ == old(out)@ + spec_u64_to_le_bytes(quant(c, step) as u64),
{
    proof {
        lemma_quant_error(c, step);
        lemma_div_is_ordered_by_denominator(c + COORD_LIMIT, 1, step as int);
    }
    let x: u64 = (c + COORD_LIMIT) as u64;
    let q: u64 = x / step;
    crate::reader::write_u64(out, q);
}

/// Decodes a 3-component array payload, exactly as [`parse_vec3_payload`]
/// says.
pub fn decode_vec3_payload(data: &Vec<u8>) -> (r: Result<Vec<Vector3>, TMFImportError>)
    ensures
        match parse_vec3_payload(data@) {
            Ok(vs) => r matches Ok(v) && v@ == vs,
            Err(e) => r == Err::<Vec<Vector3>, TMFImportError>(e),
        },
{
    if data.len() < 12 {
        return Err(TMFImportError::MalformedSegment);
    }
    let count_bytes = slice_subrange(data.as_slice(), 0, 4);
    let count = u32_from_le_bytes(count_bytes);
    let step_bytes = slice_subrange(data.as_slice(), 4, 12);
    let step = u64_from_le_bytes(step_bytes);
    proof {
        assert(count_bytes@ =~= data@.subrange(0, 4));
        assert(step_bytes@ =~= data@.subrange(4, 12));
    }
    if step < 1 || step > STEP_LIMIT {
        return Err(TMFImportError::MalformedSegment);
    }
    if !(data.len() >= 12 && (data.len() - 12) % 24 == 0 && ((data.len() - 12) / 24) as u64
        == count as u64) {
        proof {
            assert(data@.len() != 12 + 24 * (count as int)) by (nonlinear_arith)
                requires
                    data@.len() >= 12,
                    !((data@.len() - 12) % 24 == 0 && (data@.len() - 12) / 24 == count as int),
            ;
        }
        return Err(TMFImportError::MalformedSegment);
    }
    proof {
        assert(data@.len() == 12 + 24 * (count as int)) by (nonlinear_arith)
            requires
                data@.len() >= 12,
                (data@.len() - 12) % 24 == 0,
                (data@.len() - 12) / 24 == count as int,
        ;
    }
    let ghost parsed = parse_vec3_payload(data@);
    let mut out: Vec<Vector3> = Vec::new();
    let mut i: usize = 0;
    while i < count as usize
        invariant
            i <= count,
            data@.len() == 12 + 24 * (count as int),
            1 <= step <= STEP_LIMIT,
            count == spec_u32_from_le_bytes(data@.subrange(0, 4)),
            step == spec_u64_from_le_bytes(data@.subrange(4, 12)),
            forall|a: int, b: int|
                0 <= a < i && 0 <= b < 3 ==> valid_q(#[trigger] q_at(data@, a, b), step),
            out@.len() == i,
            forall|a: int|
                0 <= a < i ==> #[trigger] out@[a] == (
                    dequant(q_at(data@, a, 0) as int, step) as i64,
                    dequant(q_at(data@, a, 1) as int, step) as i64,
                    dequant(q_at(data@, a, 2) as int, step) as i64,
                ),
        decreases count - i,
    {
        let c0 = read_component(data, i, 0, step);
        let c1 = read_component(data, i, 1, step);
        let c2 = read_component(data, i, 2, step);
        match (c0, c1, c2) {
            (Some(a), Some(b), Some(c)) => {
                out.push((a, b, c));
            },
            _ => {
                return Err(TMFImportError::MalformedSegment);
            },
        }
        i = i + 1;
    }
    proof {
        assert(parse_vec3_payload(data@) matches Ok(vs) && out@ =~= vs);
    }
    Ok(out)
}

/// Reads and scales back one stored component; `None` when it falls
/// outside the working range.
fn read_component(data: &Vec<u8>, i: usize, j: usize, step: u64) -> (r: Option<i64>)
    requires
        j < 3,
        12 + 24 * (i as int) + 8 * (j as int) + 8 <= data@.len(),
        1 <= step <= STEP_LIMIT,
    ensures
        valid_q(q_at(data@, i as int, j as int), step) ==> r == Some(
            dequant(q_at(data@, i as int, j as int) as int, step) as i64,
        ),
        !valid_q(q_at(data@, i as int, j as int), step) ==> r is None,
{
    let n: usize = data.len();
    proof {
        assert(12 + 24 * (i as int) + 8 * (j as int) + 8 <= n);
    }
    let off: usize = 12 + 24 * i + 8 * j;
    let bytes = slice_subrange(data.as_slice(), off, off + 8);
    let q = u64_from_le_bytes(bytes);
    proof {
        assert(bytes@ =~= data@.subrange(
            12 + 24 * (i as int) + 8 * (j as int),
            12 + 24 * (i as int) + 8 * (j as int) + 8,
        ));
    }
    if q > 2 * (COORD_LIMIT as u64) {
        proof {
            assert(q * step > 2 * COORD_LIMIT) by (nonlinear_arith)
                requires
                    q > 2 * COORD_LIMIT,
                    step >= 1,
            ;
        }
        return None;
    }
    proof {
        assert((q as int) * (step as int) <= 0x8_0000_0000_0000_0000_0000) by (nonlinear_arith)
            requires
                q <= 0x200_0000_0000u64,
                step <= 0x400_0000_0000u64,
        ;
    }
    let prod: u128 = (q as u128) * (step as u128);
    if prod > 2 * (COORD_LIMIT as u128) {
        None
    } else {
        Some((prod as i64) - COORD_LIMIT)
    }
}

/// Storing then loading an array keeps its length and moves every
/// component down by less than one step.
pub proof fn lemma_vec3_codec_trip(vs: Seq<Vector3>, step: u64)
    requires
        vs.len() <= u32::MAX,
        vec3s_in_range(vs),
        1 <= step <= STEP_LIMIT,
    ensures
        parse_vec3_payload(vec3_payload(vs, step)) == Ok::<Seq<Vector3>, TMFImportError>(
            Seq::new(vs.len(), |i: int| quant_trip3(vs[i], step)),
        ),
{
    let s = vec3_payload(vs, step);
    lemma_auto_spec_u32_to_from_le_bytes();
    lemma_auto_spec_u64_to_from_le_bytes();
    lemma_vec3_values_len(vs, step);
    assert(s.subrange(0, 4) =~= spec_u32_to_le_bytes(vs.len() as u32));
    assert(s.subrange(4, 12) =~= spec_u64_to_le_bytes(step));
    assert(s.len() == 12 + 24 * vs.len());
    assert forall|i: int, j: int| 0 <= i < vs.len() && 0 <= j < 3 implies #[trigger] q_at(s, i, j)
        == quant(component(vs[i], j), step) as u64 && valid_q(q_at(s, i, j), step) by {
        lemma_vec3_values_at(vs, step, i, j);
        lemma_quant_error(component(vs[i], j), step);
        assert(s.subrange(12 + 24 * i + 8 * j, 12 + 24 * i + 8 * j + 8) =~= vec3_values_bytes(
            vs,
            step,
        ).subrange(24 * i + 8 * j, 24 * i + 8 * j + 8));
    }
    assert forall|i: int, j: int|
        0 <= i < spec_u32_from_le_bytes(s.subrange(0, 4)) && 0 <= j < 3 implies valid_q(
        #[trigger] q_at(s, i, j),
        step,
    ) by {}
    match parse_vec3_payload(s) {
        Ok(got) => {
            assert(got =~= Seq::new(vs.len(), |i: int| quant_trip3(vs[i], step)));
        },
        Err(_) => {
            assert(false);
        },
    }
}

/// Component `j` of a vector.
pub open spec fn component(v: Vector3, j: int) -> i64 {
    if j == 0 {
        v.0
    } else if j == 1 {
        v.1
    } else {
        v.2
    }
}

/// The vectors' bytes take 24 bytes per vector.
pub(crate) proof fn lemma_vec3_values_len(vs: Seq<Vector3>, step: u64)
    ensures
        vec3_values_bytes(vs, step).len() == 24 * vs.len(),
    decreases vs.len(),
{
    lemma_auto_spec_u64_to_from_le_bytes();
    if vs.len() > 0 {
        lemma_vec3_values_len(vs.drop_last(), step);
    }
}

/// Component `j` of vector `i` sits at its fixed offset in the vectors'
/// bytes.
proof fn lemma_vec3_values_at(vs: Seq<Vector3>, step: u64, i: int, j: int)
    requires
        0 <= i < vs.len(),
        0 <= j < 3,
    ensures
        vec3_values_bytes(vs, step).subrange(24 * i + 8 * j, 24 * i + 8 * j + 8)
            == spec_u64_to_le_bytes(quant(component(vs[i], j), step) as u64),
    decreases vs.len(),
{
    lemma_vec3_values_len(vs, step);
    vstd::bytes::lemma_auto_spec_u64_to_from_le_bytes();
    let whole = vec3_values_bytes(vs, step);
    if i == vs.len() - 1 {
        lemma_vec3_values_len(vs.drop_last(), step);
        assert(whole.subrange(24 * i + 8 * j, 24 * i + 8 * j + 8) =~= triple_bytes(
            vs.last(),
            step,
        ).subrange(8 * j, 8 * j + 8));
        assert(triple_bytes(vs.last(), step).subrange(8 * j, 8 * j + 8) =~= spec_u64_to_le_bytes(
            quant(component(vs[i], j), step) as u64,
        ));
    } else {
        lemma_vec3_values_at(vs.drop_last(), step, i, j);
        lemma_vec3_values_len(vs.drop_last(), step);
        assert(whole.subrange(24 * i + 8 * j, 24 * i + 8 * j + 8) =~= vec3_values_bytes(
            vs.drop_last(),
            step,
        ).subrange(24 * i + 8 * j, 24 * i + 8 * j + 8));
        assert(vs.drop_last()[i] == vs[i]);
    }
}


/// True when the indices climb by exactly one from the first: the shape a
/// geometry generator leaves behind, stored as a run instead of a list.
pub open spec fn is_unit_run(ts: Seq<IndexType>) -> bool {
    forall|i: int| 0 <= i < ts.len() ==> (#[trigger] ts[i]) == ts[0] + i
}

/// The bytes of an explicit index list, in order.
pub open spec fn tri_list_bytes(ts: Seq<IndexType>) -> Seq<u8>
    decreases ts.len(),
{
    if ts.len() == 0 {
        Seq::empty()
    } else {
        tri_list_bytes(ts.drop_last()) + spec_u32_to_le_bytes(ts.last())
    }
}

/// A triangle-index payload body: a run (first index and count) when the
/// indices climb by one, an explicit list otherwise, behind a mode byte.
pub open spec fn triangles_payload(ts: Seq<IndexType>) -> Seq<u8> {
    if ts.len() >= 2 && is_unit_run(ts) {
        seq![1u8] + spec_u32_to_le_bytes(ts[0]) + spec_u32_to_le_bytes(ts.len() as u32)
    } else {
        seq![0u8] + spec_u32_to_le_bytes(ts.len() as u32) + tri_list_bytes(ts)
    }
}

/// The stored index `i` of an explicit-list body.
pub open spec fn idx_at(t: Seq<u8>, i: int) -> u32 {
    spec_u32_from_le_bytes(t.subrange(5 + 4 * i, 5 + 4 * i + 4))
}

/// What a triangle-index payload body means under a baseline `min`, which
/// every stored index is offset by.
pub open spec fn parse_triangles_body(t: Seq<u8>, min: u64) -> Result<
    Seq<IndexType>,
    TMFImportError,
> {
    if t.len() < 1 {
        Err(TMFImportError::MalformedSegment)
    } else if t[0] == 0 {
        if t.len() < 5 {
            Err(TMFImportError::MalformedSegment)
        } else {
            let count = spec_u32_from_le_bytes(t.subrange(1, 5)) as int;
            if t.len() != 5 + 4 * count {
                Err(TMFImportError::MalformedSegment)
            } else if !(forall|i: int|
                0 <= i < count ==> (#[trigger] idx_at(t, i)) + min <= u32::MAX) {
                Err(TMFImportError::MalformedSegment)
            } else {
                Ok(Seq::new(count as nat, |i: int| (idx_at(t, i) + min) as u32))
            }
        }
    } else if t[0] == 1 {
        if t.len() != 9 {
            Err(TMFImportError::MalformedSegment)
        } else {
            let start = spec_u32_from_le_bytes(t.subrange(1, 5));
            let count = spec_u32_from_le_bytes(t.subrange(5, 9));
            if start + min + count > 0x1_0000_0000 {
                Err(TMFImportError::MalformedSegment)
            } else {
                Ok(Seq::new(count as nat, |i: int| (start + min + i) as u32))
            }
        }
    } else {
        Err(TMFImportError::MalformedSegment)
    }
}

/// What a whole triangle-index payload means: in the compact profile a
/// baseline index (u64) comes first and offsets every stored index.
pub open spec fn parse_triangles_payload(s: Seq<u8>, with_min: bool) -> Result<
    Seq<IndexType>,
    TMFImportError,
> {
    if with_min {
        if s.len() < 8 {
            Err(TMFImportError::UnexpectedEnd)
        } else {
            parse_triangles_body(s.skip(8), spec_u64_from_le_bytes(s.take(8)))
        }
    } else {
        parse_triangles_body(s, 0)
    }
}

/// True when the indices climb by exactly one from the first.
pub fn check_unit_run(ts: &Vec<IndexType>) -> (r: bool)
    ensures
        r == is_unit_run(ts@),
{
    let mut i: usize = 0;
    while i < ts.len()
        invariant
            i <= ts@.len(),
            forall|k: int| 0 <= k < i ==> (#[trigger] ts@[k]) == ts@[0] + k,
        decreases ts@.len() - i,
    {
        if (ts[i] as u128) != (ts[0] as u128) + (i as u128) {
            return false;
        }
        i = i + 1;
    }
    true
}

/// Appends a triangle-index payload body to `out` (no baseline: the
/// writer's profile stores indices whole).
pub fn encode_triangles_payload(ts: &Vec<IndexType>, out: &mut Vec<u8>)
    requires
        ts@.len() <= u32::MAX,
    ensures
        final(out)@ == old(out)@ + triangles_payload(ts@),
{
    let run = check_unit_run(ts);
    if ts.len() >= 2 && run {
        out.push(1u8);
        write_u32(out, ts[0]);
        write_u32(out, ts.len() as u32);
        proof {
            assert(final(out)@ =~= old(out)@ + triangles_payload(ts@));
        }
    } else {
        out.push(0u8);
        write_u32(out, ts.len() as u32);
        let ghost base = out@;
        let mut i: usize = 0;
        while i < ts.len()
            invariant
                i <= ts@.len(),
                ts@.len() <= u32::MAX,
                out@ == base + tri_list_bytes(ts@.take(i as int)),
            decreases ts@.len() - i,
        {
            write_u32(out, ts[i]);
            i = i + 1;
            proof {
                let t = ts@.take(i as int);
                assert(t.drop_last() =~= ts@.take(i - 1));
                assert(t.last() == ts@[i - 1]);
                assert(out@ =~= base + tri_list_bytes(t));
            }
        }
        proof {
            assert(ts@.take(ts@.len() as int) =~= ts@);
            assert(final(out)@ =~= old(out)@ + triangles_payload(ts@));
        }
    }
}

/// Decodes a triangle-index payload body under a baseline, exactly as
/// [`parse_triangles_body`] says.
pub fn decode_triangles_body(data: &Vec<u8>, min: u64) -> (r: Result<
    Vec<IndexType>,
    TMFImportError,
>)
    ensures
        match parse_triangles_body(data@, min) {
            Ok(ts) => r matches Ok(v) && v@ == ts,
            Err(e) => r == Err::<Vec<IndexType>, TMFImportError>(e),
        },
{
    if data.len() < 1 {
        return Err(TMFImportError::MalformedSegment);
    }
    let mode = data[0];
    if mode == 0 {
        if data.len() < 5 {
            return Err(TMFImportError::MalformedSegment);
        }
        let count_bytes = slice_subrange(data.as_slice(), 1, 5);
        let count = u32_from_le_bytes(count_bytes);
        proof {
            assert(count_bytes@ =~= data@.subrange(1, 5));
        }
        if !((data.len() - 5) % 4 == 0 && ((data.len() - 5) / 4) as u64 == count as u64) {
            proof {
                assert(data@.len() != 5 + 4 * (count as int)) by (nonlinear_arith)
                    requires
                        data@.len() >= 5,
                        !((data@.len() - 5) % 4 == 0 && (data@.len() - 5) / 4 == count as int),
                ;
            }
            return Err(TMFImportError::MalformedSegment);
        }
        proof {
            assert(data@.len() == 5 + 4 * (count as int)) by (nonlinear_arith)
                requires
                    data@.len() >= 5,
                    (data@.len() - 5) % 4 == 0,
                    (data@.len() - 5) / 4 == count as int,
            ;
        }
        let mut out: Vec<IndexType> = Vec::new();
        let mut i: usize = 0;
        while i < count as usize
            invariant
                i <= count,
                data@.len() == 5 + 4 * (count as int),
                count == spec_u32_from_le_bytes(data@.subrange(1, 5)),
                data@[0] == 0,
                forall|k: int| 0 <= k < i ==> (#[trigger] idx_at(data@, k)) + min <= u32::MAX,
                out@.len() == i,
                forall|k: int|
                    0 <= k < i ==> (#[trigger] out@[k]) == (idx_at(data@, k) + min) as u32,
            decreases count - i,
        {
            let n: usize = data.len();
            proof {
                assert(5 + 4 * (i as int) + 4 <= n);
            }
            let off: usize = 5 + 4 * i;
            let bytes = slice_subrange(data.as_slice(), off, off + 4);
            let raw = u32_from_le_bytes(bytes);
            proof {
                assert(bytes@ =~= data@.subrange(5 + 4 * (i as int), 5 + 4 * (i as int) + 4));
            }
            let shifted: u128 = (raw as u128) + (min as u128);
            if shifted > u32::MAX as u128 {
                proof {
                    assert(idx_at(data@, i as int) + min > u32::MAX);
                }
                return Err(TMFImportError::MalformedSegment);
            }
            out.push(shifted as u32);
            i = i + 1;
        }
        proof {
            assert(parse_triangles_body(data@, min) matches Ok(ts) && out@ =~= ts);
        }
        Ok(out)
    } else if mode == 1 {
        if data.len() != 9 {
            return Err(TMFImportError::MalformedSegment);
        }
        let start_bytes = slice_subrange(data.as_slice(), 1, 5);
        let start = u32_from_le_bytes(start_bytes);
        let count_bytes = slice_subrange(data.as_slice(), 5, 9);
        let count = u32_from_le_bytes(count_bytes);
        proof {
            assert(start_bytes@ =~= data@.subrange(1, 5));
            assert(count_bytes@ =~= data@.subrange(5, 9));
        }
        if (start as u128) + (min as u128) + (count as u128) > 0x1_0000_0000u128 {
            return Err(TMFImportError::MalformedSegment);
        }
        let first: u64 = ((start as u128) + (min as u128)) as u64;
        let mut out: Vec<IndexType> = Vec::new();
        let mut i: usize = 0;
        while i < count as usize
            invariant
                i <= count,
                first == start + min,
                first + count <= 0x1_0000_0000,
                out@.len() == i,
                forall|k: int| 0 <= k < i ==> (#[trigger] out@[k]) == (start + min + k) as u32,
            decreases count - i,
        {
            out.push((first + i as u64) as u32);
            i = i + 1;
        }
        proof {
            assert(parse_triangles_body(data@, min) matches Ok(ts) && out@ =~= ts);
        }
        Ok(out)
    } else {
        Err(TMFImportError::MalformedSegment)
    }
}

/// An explicit index list takes 4 bytes per index.
pub(crate) proof fn lemma_tri_list_len(ts: Seq<IndexType>)
    ensures
        tri_list_bytes(ts).len() == 4 * ts.len(),
    decreases ts.len(),
{
    lemma_auto_spec_u32_to_from_le_bytes();
    if ts.len() > 0 {
        lemma_tri_list_len(ts.drop_last());
    }
}

/// Index `i` of an explicit list sits at its fixed offset in the body.
proof fn lemma_tri_list_at(ts: Seq<IndexType>, pre: Seq<u8>, i: int)
    requires
        0 <= i < ts.len(),
        pre.len() == 5,
    ensures
        (pre + tri_list_bytes(ts)).subrange(5 + 4 * i, 5 + 4 * i + 4) == spec_u32_to_le_bytes(
            ts[i],
        ),
    decreases ts.len(),
{
    lemma_auto_spec_u32_to_from_le_bytes();
    lemma_tri_list_len(ts);
    let whole = pre + tri_list_bytes(ts);
    if i == ts.len() - 1 {
        lemma_tri_list_len(ts.drop_last());
        assert(whole.subrange(5 + 4 * i, 5 + 4 * i + 4) =~= spec_u32_to_le_bytes(ts.last()));
    } else {
        lemma_tri_list_at(ts.drop_last(), pre, i);
        lemma_tri_list_len(ts.drop_last());
        assert(whole.subrange(5 + 4 * i, 5 + 4 * i + 4) =~= (pre + tri_list_bytes(
            ts.drop_last(),
        )).subrange(5 + 4 * i, 5 + 4 * i + 4));
        assert(ts.drop_last()[i] == ts[i]);
    }
}

/// Storing then loading a triangle-index array gives back exactly the
/// array: the codec, run form included, is value- and order-preserving.
pub proof fn lemma_triangles_codec_trip(ts: Seq<IndexType>)
    requires
        ts.len() <= u32::MAX,
    ensures
        parse_triangles_payload(triangles_payload(ts), false) == Ok::<
            Seq<IndexType>,
            TMFImportError,
        >(ts),
{
    lemma_auto_spec_u32_to_from_le_bytes();
    let s = triangles_payload(ts);
    if ts.len() >= 2 && is_unit_run(ts) {
        assert(s[0] == 1);
        assert(s.len() == 9);
        assert(s.subrange(1, 5) =~= spec_u32_to_le_bytes(ts[0]));
        assert(s.subrange(5, 9) =~= spec_u32_to_le_bytes(ts.len() as u32));
        assert(ts[ts.len() - 1] == ts[0] + ts.len() - 1);
        match parse_triangles_body(s, 0) {
            Ok(got) => {
                assert(got =~= ts);
            },
            Err(_) => {
                assert(false);
            },
        }
    } else {
        lemma_tri_list_len(ts);
        assert(s[0] == 0);
        assert(s.len() == 5 + 4 * ts.len());
        assert(s.subrange(1, 5) =~= spec_u32_to_le_bytes(ts.len() as u32));
        let pre = seq![0u8] + spec_u32_to_le_bytes(ts.len() as u32);
        assert(s =~= pre + tri_list_bytes(ts));
        assert forall|i: int| 0 <= i < ts.len() implies #[trigger] idx_at(s, i) == ts[i] by {
            lemma_tri_list_at(ts, pre, i);
            assert(s.subrange(5 + 4 * i, 5 + 4 * i + 4) == spec_u32_to_le_bytes(ts[i]));
            assert(idx_at(s, i) == spec_u32_from_le_bytes(spec_u32_to_le_bytes(ts[i])));
        }
        match parse_triangles_body(s, 0) {
            Ok(got) => {
                assert(got =~= ts);
            },
            Err(_) => {
                assert(false);
            },
        }
    }
}


/// The indices of a list of chunks, joined back in order.
pub open spec fn concat_indices(chunks: Seq<Seq<IndexType>>) -> Seq<IndexType>
    decreases chunks.len(),
{
    if chunks.len() == 0 {
        Seq::empty()
    } else {
        concat_indices(chunks.drop_last()) + chunks.last()
    }
}

/// A run this long or longer is worth a segment of its own.
pub const MIN_RUN: usize = 64;

/// Splits an index array at the borders of long unit-step runs, so each
/// run can take the codec's compact run form. Joining the chunks back in
/// order gives exactly the input.
pub fn split_runs(ts: &Vec<IndexType>) -> (r: Vec<Vec<IndexType>>)
    ensures
        concat_indices(Seq::new(r@.len(), |k: int| r@[k]@)) == ts@,
        forall|k: int| 0 <= k < r@.len() ==> (#[trigger] r@[k]@).len() > 0,
{
    let mut chunks: Vec<Vec<IndexType>> = Vec::new();
    let mut cur: Vec<IndexType> = Vec::new();
    let mut i: usize = 0;
    while i < ts.len()
        invariant
            i <= ts@.len(),
            concat_indices(Seq::new(chunks@.len(), |k: int| chunks@[k]@)) + cur@ == ts@.take(
                i as int,
            ),
            forall|k: int| 0 <= k < chunks@.len() ==> (#[trigger] chunks@[k]@).len() > 0,
        decreases ts@.len() - i,
    {
        let mut j: usize = i + 1;
        while j < ts.len() && (ts[j] as u128) == (ts[i] as u128) + ((j - i) as u128)
            invariant
                i < j <= ts@.len(),
            decreases ts@.len() - j,
        {
            j = j + 1;
        }
        let part = slice_to_vec(slice_subrange(ts.as_slice(), i, j));
        let ghost chunks_pre = Seq::new(chunks@.len(), |k: int| chunks@[k]@);
        if j - i >= MIN_RUN {
            if cur.len() > 0 {
                chunks.push(cur);
                cur = Vec::new();
                proof {
                    let cs = Seq::new(chunks@.len(), |k: int| chunks@[k]@);
                    assert(cs.drop_last() =~= chunks_pre);
                    assert(concat_indices(cs) + cur@ =~= ts@.take(i as int));
                }
            }
            let ghost chunks_mid = Seq::new(chunks@.len(), |k: int| chunks@[k]@);
            chunks.push(part);
            proof {
                let cs = Seq::new(chunks@.len(), |k: int| chunks@[k]@);
                assert(cs.drop_last() =~= chunks_mid);
                assert(cs.last() =~= ts@.subrange(i as int, j as int));
                assert(concat_indices(cs) + cur@ =~= ts@.take(j as int));
            }
        } else {
            let mut part = part;
            let ghost pv = part@;
            cur.append(&mut part);
            proof {
                assert(pv =~= ts@.subrange(i as int, j as int));
                assert(ts@.take(i as int) + ts@.subrange(i as int, j as int) =~= ts@.take(
                    j as int,
                ));
                assert(concat_indices(chunks_pre) + cur@ =~= ts@.take(j as int));
            }
        }
        i = j;
    }
    proof {
        assert(ts@.take(ts@.len() as int) =~= ts@);
    }
    if cur.len() > 0 {
        let ghost chunks_pre = Seq::new(chunks@.len(), |k: int| chunks@[k]@);
        chunks.push(cur);
        proof {
            let cs = Seq::new(chunks@.len(), |k: int| chunks@[k]@);
            assert(cs.drop_last() =~= chunks_pre);
            assert(concat_indices(cs) =~= ts@);
        }
    } else {
        proof {
            assert(concat_indices(Seq::new(chunks@.len(), |k: int| chunks@[k]@)) + cur@ =~= ts@);
            assert(concat_indices(Seq::new(chunks@.len(), |k: int| chunks@[k]@)) =~= ts@);
        }
    }
    chunks
}


/// True when every index lands below `len`.
pub open spec fn in_bounds(ts: Seq<IndexType>, len: int) -> bool {
    forall|t: int| 0 <= t < ts.len() ==> (#[trigger] ts[t]) < len
}

/// True when every index lands below `len`.
pub fn check_in_bounds(ts: &Vec<IndexType>, len: usize) -> (r: bool)
    ensures
        r == in_bounds(ts@, len as int),
{
    let mut i: usize = 0;
    while i < ts.len()
        invariant
            i <= ts@.len(),
            forall|t: int| 0 <= t < i ==> (#[trigger] ts@[t]) < len,
        decreases ts@.len() - i,
    {
        if ts[i] as usize >= len {
            return false;
        }
        i = i + 1;
    }
    true
}

/// Appends a triangle-index array's payload after checking that the
/// array fits its count field and that every index lands inside the
/// paired attribute array of `count` entries.
pub fn save_triangles(triangles: &Vec<IndexType>, count: usize, curr_segment_data: &mut Vec<u8>) -> (r:
    Result<(), crate::TMFExportError>)
    ensures
        (r is Ok <==> triangles@.len() <= u32::MAX && in_bounds(triangles@, count as int)),
        r is Ok ==> final(curr_segment_data)@ == old(curr_segment_data)@ + triangles_payload(
            triangles@,
        ),
        r is Err ==> final(curr_segment_data)@ == old(curr_segment_data)@,
        triangles@.len() > u32::MAX ==> r == Err::<(), crate::TMFExportError>(
            crate::TMFExportError::TooManyItems,
        ),
        triangles@.len() <= u32::MAX && !in_bounds(triangles@, count as int) ==> r == Err::<
            (),
            crate::TMFExportError,
        >(crate::TMFExportError::IndexOutOfBounds),
{
    if triangles.len() > u32::MAX as usize {
        return Err(crate::TMFExportError::TooManyItems);
    }
    if !check_in_bounds(triangles, count) {
        return Err(crate::TMFExportError::IndexOutOfBounds);
    }
    encode_triangles_payload(triangles, curr_segment_data);
    Ok(())
}

/// Appends a position array's payload, quantized at the vertex precision
/// scaled by the mesh's shortest edge.
pub fn save_tmf_vertices(
    vertices: &Vec<Vector3>,
    precision: u32,
    curr_segment_data: &mut Vec<u8>,
    shortest_edge: u64,
)
    requires
        vertices@.len() <= u32::MAX,
        vec3s_in_range(vertices@),
    ensures
        final(curr_segment_data)@ == old(curr_segment_data)@ + vec3_payload(
            vertices@,
            crate::step_of(shortest_edge, precision),
        ),
{
    let step = crate::compute_step(shortest_edge, precision);
    encode_vec3_payload(vertices, step, curr_segment_data);
}

/// Decodes a position array payload, exactly as [`parse_vec3_payload`]
/// says.
pub fn read_tmf_vertices(data: &Vec<u8>) -> (r: Result<Vec<Vector3>, TMFImportError>)
    ensures
        match parse_vec3_payload(data@) {
            Ok(vs) => r matches Ok(v) && v@ == vs,
            Err(e) => r == Err::<Vec<Vector3>, TMFImportError>(e),
        },
{
    decode_vec3_payload(data)
}

/// Decodes a triangle-index payload body with no baseline, exactly as
/// [`parse_triangles_body`] says.
pub fn read_triangles(data: &Vec<u8>) -> (r: Result<Vec<IndexType>, TMFImportError>)
    ensures
        match parse_triangles_body(data@, 0) {
            Ok(ts) => r matches Ok(v) && v@ == ts,
            Err(e) => r == Err::<Vec<IndexType>, TMFImportError>(e),
        },
{
    decode_triangles_body(data, 0)
}


/// A triangle payload's byte count stays within the length field's range
/// whenever the index count fits its own field.
pub proof fn lemma_tri_payload_len(ts: Seq<IndexType>)
    requires
        ts.len() <= u32::MAX,
    ensures
        triangles_payload(ts).len() <= u64::MAX,
        triangles_payload(ts).len() >= 1,
{
    lemma_auto_spec_u32_to_from_le_bytes();
    if ts.len() >= 2 && is_unit_run(ts) {
        assert(triangles_payload(ts).len() == 9);
    } else {
        lemma_tri_list_len(ts);
        assert(triangles_payload(ts).len() == 5 + 4 * ts.len());
        assert(5 + 4 * ts.len() <= u64::MAX) by (nonlinear_arith)
            requires
                ts.len() <= u32::MAX,
        ;
    }
}

} // verus!
