//! Choosing the nearest wall of the sRGB gamut from a set of candidate
//! distances.
//!
//! The distances are IEEE-754 doubles handed over as their bit patterns
//! (`f64::to_bits`). A finite double that is zero or positive has its sign bit
//! clear and an exponent field below all ones, and such doubles order exactly
//! as their bit patterns do as unsigned integers. So the least admissible
//! distance is found, and proved least, with integer comparisons alone; NaN,
//! the infinities and every negative value (`-0.0` included) drop out by
//! the same test.
use vstd::prelude::*;

verus! {

/// The bit pattern of positive infinity: every finite, non-negative double
/// has a smaller one.
pub const INFINITY_BITS: u64 = 0x7ff0_0000_0000_0000;

/// The bits are those of a finite double that is at least the double whose
/// bits are `low` (`low` being zero or a positive finite double).
pub open spec fn admissible(bits: u64, low: u64) -> bool {
    low <= bits < INFINITY_BITS
}

/// `m` is the least admissible value of `s`.
pub open spec fn is_least_admissible(s: Seq<u64>, low: u64, m: u64) -> bool {
    &&& s.contains(m)
    &&& admissible(m, low)
    &&& forall|i: int| 0 <= i < s.len() && admissible(#[trigger] s[i], low) ==> m <= s[i]
}

/// What the least admissible value of `s` is, if it has any.
pub open spec fn least_admissible_spec(s: Seq<u64>, low: u64, r: Option<u64>) -> bool {
    match r {
        Some(m) => is_least_admissible(s, low, m),
        None => forall|i: int| 0 <= i < s.len() ==> !admissible(#[trigger] s[i], low),
    }
}

fn least_admissible(values: &[u64], low: u64) -> (r: Option<u64>)
    ensures
        least_admissible_spec(values@, low, r),
{
    let mut best: Option<u64> = None;
    let mut i: usize = 0;
    while i < values.len()
        invariant
            i <= values@.len(),
            least_admissible_spec(values@.subrange(0, i as int), low, best),
        decreases values@.len() - i,
    {
        let v = values[i];
        let ghost before = values@.subrange(0, i as int);
        let ghost after = values@.subrange(0, i + 1);
        assert(after =~= before.push(v));
        if low <= v && v < INFINITY_BITS {
            match best {
                Some(m) => {
                    if v < m {
                        best = Some(v);
                    }
                },
                None => {
                    best = Some(v);
                },
            }
        }
        proof {
            assert(after[i as int] == v);
            assert forall|j: int| 0 <= j < i implies after[j] == before[j] by {}
            if best is Some {
                let m = best->0;
                if m == v {
                    assert(after.contains(m));
                } else {
                    let k = choose|k: int| 0 <= k < before.len() && before[k] == m;
                    assert(after[k] == m);
                }
            }
        }
        i += 1;
    }
    assert(values@.subrange(0, values@.len() as int) =~= values@);
    best
}

/// The length, along a hue ray, to the nearest gamut wall it meets: the least
/// of the candidate lengths that is finite and strictly positive. Zero,
/// negative, infinite and NaN lengths are left out; `None` when every length
/// is.
pub fn least_positive(lengths: &[u64]) -> (r: Option<u64>)
    ensures
        least_admissible_spec(lengths@, 1, r),
{
    least_admissible(lengths, 1)
}

/// The radius of the largest circle about the origin inside every gamut wall:
/// the least of the distances that is finite and not negative. `None` when
/// no distance is.
pub fn least_non_negative(distances: &[u64]) -> (r: Option<u64>)
    ensures
        least_admissible_spec(distances@, 0, r),
{
    least_admissible(distances, 0)
}

} // verus!
