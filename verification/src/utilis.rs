//! Geometry primitives on fixed-point vectors, and index-array pruning.

use vstd::prelude::*;

use crate::{coord_in_range, IndexType, Vector3, UNIT};

verus! {

/// True when `r` is the integer square root of `x` rounded down.
pub open spec fn is_sqrt_floor(x: int, r: int) -> bool {
    &&& 0 <= r
    &&& r * r <= x
    &&& x < (r + 1) * (r + 1)
}

/// The integer square root of `x` rounded down.
pub open spec fn sqrt_floor(x: int) -> int {
    choose|r: int| is_sqrt_floor(x, r)
}

/// No two integers both satisfy [`is_sqrt_floor`] for one radicand, so a
/// witness pins [`sqrt_floor`] down.
pub proof fn lemma_sqrt_floor_unique(x: int, r: int)
    requires
        is_sqrt_floor(x, r),
    ensures
        sqrt_floor(x) == r,
{
    let r2 = sqrt_floor(x);
    assert(is_sqrt_floor(x, r2));
    assert(r == r2) by (nonlinear_arith)
        requires
            is_sqrt_floor(x, r),
            is_sqrt_floor(x, r2),
    ;
}

/// The integer square root of `x`, rounded down, by bisection.
pub fn isqrt(x: u128) -> (r: u64)
    ensures
        r == sqrt_floor(x as int),
        is_sqrt_floor(x as int, r as int),
{
    let mut lo: u128 = 0;
    let mut hi: u128 = 0x1_0000_0000_0000_0000;
    while lo + 1 < hi
        invariant
            lo < hi <= 0x1_0000_0000_0000_0000,
            lo * lo <= x,
            x < hi * hi,
        decreases hi - lo,
    {
        let mid = lo + (hi - lo) / 2;
        proof {
            assert(mid * mid < 0x1_0000_0000_0000_0000_0000_0000_0000_0000) by (nonlinear_arith)
                requires
                    mid < 0x1_0000_0000_0000_0000,
            ;
        }
        if mid * mid <= x {
            lo = mid;
        } else {
            hi = mid;
        }
    }
    proof {
        lemma_sqrt_floor_unique(x as int, lo as int);
    }
    lo as u64
}

/// The squared difference of two components.
pub open spec fn sq_diff(a: i64, b: i64) -> int {
    (a - b) * (a - b)
}

/// The squared distance between two fixed-point points.
pub open spec fn dist_sq3(a: Vector3, b: Vector3) -> int {
    sq_diff(a.0, b.0) + sq_diff(a.1, b.1) + sq_diff(a.2, b.2)
}

/// The absolute difference of two components, as an unsigned value.
fn abs_diff(a: i64, b: i64) -> (r: u64)
    requires
        coord_in_range(a),
        coord_in_range(b),
    ensures
        r * r == sq_diff(a, b),
        r <= 2 * crate::COORD_LIMIT,
{
    let r: u64 = if a >= b {
        (a - b) as u64
    } else {
        (b - a) as u64
    };
    proof {
        assert(r * r == sq_diff(a, b)) by (nonlinear_arith)
            requires
                r == if a >= b {
                    a - b
                } else {
                    b - a
                },
        ;
    }
    r
}

/// The squared distance between two points, exactly.
pub fn distance_sq(a: Vector3, b: Vector3) -> (r: u128)
    requires
        coord_in_range(a.0) && coord_in_range(a.1) && coord_in_range(a.2),
        coord_in_range(b.0) && coord_in_range(b.1) && coord_in_range(b.2),
    ensures
        r == dist_sq3(a, b),
{
    let d0 = abs_diff(a.0, b.0);
    let d1 = abs_diff(a.1, b.1);
    let d2 = abs_diff(a.2, b.2);
    proof {
        assert((d0 as u128) * (d0 as u128) <= 0x10_0000_0000_0000_0000_0000
            && (d1 as u128) * (d1 as u128) <= 0x10_0000_0000_0000_0000_0000 && (d2 as u128) * (
        d2 as u128) <= 0x10_0000_0000_0000_0000_0000) by (nonlinear_arith)
            requires
                d0 <= 0x200_0000_0000u64,
                d1 <= 0x200_0000_0000u64,
                d2 <= 0x200_0000_0000u64,
        ;
    }
    (d0 as u128) * (d0 as u128) + (d1 as u128) * (d1 as u128) + (d2 as u128) * (d2 as u128)
}

/// The distance between two points, rounded down to whole fixed-point
/// units.
pub fn distance(a: Vector3, b: Vector3) -> (r: u64)
    requires
        coord_in_range(a.0) && coord_in_range(a.1) && coord_in_range(a.2),
        coord_in_range(b.0) && coord_in_range(b.1) && coord_in_range(b.2),
    ensures
        r == sqrt_floor(dist_sq3(a, b)),
        is_sqrt_floor(dist_sq3(a, b), r as int),
{
    isqrt(distance_sq(a, b))
}

/// The squared length of a vector.
pub open spec fn mag_sq(i: Vector3) -> int {
    dist_sq3(i, (0, 0, 0))
}

/// The length of a vector, rounded down to whole fixed-point units.
pub fn magnitude(i: Vector3) -> (r: u64)
    requires
        coord_in_range(i.0) && coord_in_range(i.1) && coord_in_range(i.2),
    ensures
        r == sqrt_floor(mag_sq(i)),
        is_sqrt_floor(mag_sq(i), r as int),
{
    distance(i, (0, 0, 0))
}

/// One component of a vector scaled to unit length: the component times
/// [`UNIT`], divided by the vector's length, rounded toward zero.
pub open spec fn norm_component(c: i64, mag: int) -> int
    recommends
        mag > 0,
{
    if c >= 0 {
        (c * UNIT) / mag
    } else {
        -((-c * UNIT) / mag)
    }
}

/// Scales a nonzero vector to unit length, component by component.
pub fn normalize(i: Vector3) -> (r: Vector3)
    requires
        coord_in_range(i.0) && coord_in_range(i.1) && coord_in_range(i.2),
        mag_sq(i) > 0,
    ensures
        r.0 == norm_component(i.0, sqrt_floor(mag_sq(i))),
        r.1 == norm_component(i.1, sqrt_floor(mag_sq(i))),
        r.2 == norm_component(i.2, sqrt_floor(mag_sq(i))),
{
    let mag = magnitude(i);
    proof {
        assert(mag >= 1);
    }
    (norm_div(i.0, mag), norm_div(i.1, mag), norm_div(i.2, mag))
}

/// One component of [`normalize`]'s result.
fn norm_div(c: i64, mag: u64) -> (r: i64)
    requires
        coord_in_range(c),
        mag >= 1,
    ensures
        r == norm_component(c, mag as int),
{
    if c >= 0 {
        (((c as u64) * (UNIT as u64)) / mag) as i64
    } else {
        let q = (((-c) as u64) * (UNIT as u64)) / mag;
        proof {
            assert(q <= (-c) * UNIT) by (nonlinear_arith)
                requires
                    mag >= 1,
                    q == ((-c as int) * (UNIT as int)) / (mag as int),
                    c < 0,
                    -c <= crate::COORD_LIMIT,
            ;
        }
        -(q as i64)
    }
}

/// The smallest value in a non-empty sequence of indices.
pub open spec fn seq_min(s: Seq<IndexType>) -> IndexType
    recommends
        s.len() > 0,
    decreases s.len(),
{
    if s.len() <= 1 {
        s[0]
    } else if s.last() < seq_min(s.drop_last()) {
        s.last()
    } else {
        seq_min(s.drop_last())
    }
}

/// The minimum bounds every element and is itself an element.
pub proof fn lemma_seq_min(s: Seq<IndexType>)
    requires
        s.len() > 0,
    ensures
        forall|i: int| 0 <= i < s.len() ==> seq_min(s) <= #[trigger] s[i],
        exists|i: int| 0 <= i < s.len() && seq_min(s) == s[i],
    decreases s.len(),
{
    if s.len() <= 1 {
        assert(seq_min(s) == s[0]);
    } else {
        lemma_seq_min(s.drop_last());
        assert(forall|i: int| 0 <= i < s.len() - 1 ==> s.drop_last()[i] == s[i]);
        let j = choose|i: int| 0 <= i < s.len() - 1 && seq_min(s.drop_last()) == s.drop_last()[i];
        if s.last() < seq_min(s.drop_last()) {
            assert(seq_min(s) == s[s.len() - 1]);
        } else {
            assert(seq_min(s) == s[j]);
        }
    }
}

/// Drops the leading attribute entries that no index reaches, when the
/// smallest index is not already zero, and rebases the indices to match.
/// A fast, partial prune: entries above the smallest index stay even if
/// unused.
pub fn fast_prune<T>(data: &mut Vec<T>, indices: &mut Vec<IndexType>)
    requires
        old(indices)@.len() > 0,
        forall|i: int| 0 <= i < old(indices)@.len() ==> (#[trigger] old(indices)@[i])
            < old(data)@.len(),
    ensures
        final(data)@ == old(data)@.skip(seq_min(old(indices)@) as int),
        final(indices)@.len() == old(indices)@.len(),
        forall|i: int| 0 <= i < old(indices)@.len() ==> (#[trigger] final(indices)@[i]) == old(
            indices,
        )@[i] - seq_min(old(indices)@),
{
    proof {
        lemma_seq_min(indices@);
    }
    let ghost m = seq_min(indices@);
    let mut min_index: IndexType = IndexType::MAX;
    let mut i: usize = 0;
    while i < indices.len()
        invariant
            *indices == *old(indices),
            i <= indices@.len(),
            indices@.len() > 0,
            i > 0 ==> min_index == seq_min(indices@.take(i as int)),
            i == 0 ==> min_index == IndexType::MAX,
        decreases indices@.len() - i,
    {
        if indices[i] == 0 {
            proof {
                lemma_seq_min(old(indices)@);
                assert(seq_min(old(indices)@) == 0);
                assert(old(data)@.skip(0) =~= old(data)@);
                assert(forall|k: int|
                    0 <= k < old(indices)@.len() ==> (#[trigger] old(indices)@[k]) - 0 == old(
                        indices,
                    )@[k]);
            }
            return ;
        }
        if indices[i] < min_index {
            min_index = indices[i];
        }
        proof {
            let t = indices@.take(i + 1);
            assert(t.drop_last() =~= indices@.take(i as int));
            assert(t.last() == indices@[i as int]);
        }
        i = i + 1;
    }
    proof {
        assert(indices@.take(indices@.len() as int) =~= indices@);
    }
    let tail = data.split_off(min_index as usize);
    *data = tail;
    let mut j: usize = 0;
    while j < indices.len()
        invariant
            indices@.len() == old(indices)@.len(),
            min_index == seq_min(old(indices)@),
            forall|k: int| 0 <= k < old(indices)@.len() ==> seq_min(old(indices)@)
                <= #[trigger] old(indices)@[k],
            j <= indices@.len(),
            forall|k: int| j <= k < indices@.len() ==> (#[trigger] indices@[k]) == old(indices)@[k],
            forall|k: int|
                0 <= k < j ==> (#[trigger] indices@[k]) == old(indices)@[k] - min_index,
        decreases indices@.len() - j,
    {
        indices[j] = indices[j] - min_index;
        j = j + 1;
    }
}

} // verus!
