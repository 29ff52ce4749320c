//! Exact statistics of a height array.
//!
//! The mean and the population variance of integer heights are rational
//! numbers. They are returned as fractions of integers, so that nothing is
//! rounded before the caller asks for it.

use super::surface::{lemma_tallest_bounds, tallest};
use vstd::prelude::*;

verus! {

/// A non-negative rational number. The denominator of a value that this
/// module returns is never zero.
#[derive(Clone, Copy, Debug, PartialEq, Eq, Structural)]
pub struct Fraction {
    pub numerator: u128,
    pub denominator: u128,
}

/// Sum of the heights.
pub open spec fn total(s: Seq<u64>) -> int
    decreases s.len(),
{
    if s.len() == 0 {
        0
    } else {
        total(s.drop_last()) + s.last()
    }
}

/// Sum of the squared heights.
pub open spec fn square_total(s: Seq<u64>) -> int
    decreases s.len(),
{
    if s.len() == 0 {
        0
    } else {
        square_total(s.drop_last()) + s.last() * s.last()
    }
}

/// The population variance times the squared count:
/// `len * sum(h^2) - sum(h)^2`.
pub open spec fn spread(s: Seq<u64>) -> int {
    s.len() * square_total(s) - total(s) * total(s)
}

/// Sum of the squared distances of the heights from `x`, written out.
pub open spec fn deviation(s: Seq<u64>, x: int) -> int {
    square_total(s) - 2 * x * total(s) + s.len() * x * x
}

/// Both sums are bounded through a bound on the heights.
pub proof fn lemma_totals_bounded(s: Seq<u64>, b: int)
    requires
        forall|c: int| 0 <= c < s.len() ==> #[trigger] s[c] <= b,
    ensures
        0 <= total(s) <= s.len() * b,
        0 <= square_total(s) <= s.len() * b * b,
    decreases s.len(),
{
    if s.len() > 0 {
        let r = s.drop_last();
        let y = s.last() as int;
        assert(s[s.len() - 1] <= b);
        assert forall|c: int| 0 <= c < r.len() implies #[trigger] r[c] <= b by {
            assert(r[c] == s[c]);
        }
        lemma_totals_bounded(r, b);
        let n = r.len() as int;
        assert((n + 1) * b == n * b + b) by (nonlinear_arith);
        assert((n + 1) * b * b == n * b * b + b * b) by (nonlinear_arith);
        assert(0 <= y * y <= b * b) by (nonlinear_arith)
            requires
                0 <= y <= b,
        ;
    } else {
        assert(s.len() * b == 0) by (nonlinear_arith)
            requires
                s.len() == 0,
        ;
        assert(s.len() * b * b == 0) by (nonlinear_arith)
            requires
                s.len() == 0,
        ;
    }
}

/// The written-out sum of squared distances is a sum of squares.
pub proof fn lemma_deviation_nonnegative(s: Seq<u64>, x: int)
    ensures
        deviation(s, x) >= 0,
    decreases s.len(),
{
    if s.len() > 0 {
        let r = s.drop_last();
        let y = s.last() as int;
        lemma_deviation_nonnegative(r, x);
        let n = r.len() as int;
        let q = square_total(r);
        let t = total(r);
        assert((q + y * y) - 2 * x * (t + y) + (n + 1) * x * x == (q - 2 * x * t + n * x * x) + (y
            - x) * (y - x)) by (nonlinear_arith);
        assert((y - x) * (y - x) >= 0) by (nonlinear_arith);
    } else {
        assert(s.len() * x * x == 0) by (nonlinear_arith)
            requires
                s.len() == 0,
        ;
    }
}

/// The variance is never negative: `len * sum(h^2) >= sum(h)^2`.
pub proof fn lemma_spread_nonnegative(s: Seq<u64>)
    ensures
        spread(s) >= 0,
    decreases s.len(),
{
    if s.len() > 0 {
        let r = s.drop_last();
        let y = s.last() as int;
        lemma_spread_nonnegative(r);
        lemma_deviation_nonnegative(r, y);
        let n = r.len() as int;
        let q = square_total(r);
        let t = total(r);
        assert((n + 1) * (q + y * y) - (t + y) * (t + y) == (n * q - t * t) + (q - 2 * y * t + n
            * y * y)) by (nonlinear_arith);
    } else {
        assert(s.len() * square_total(s) == 0) by (nonlinear_arith)
            requires
                s.len() == 0,
        ;
    }
}

/// Sum of the heights. A sum of 64-bit heights always fits 128 bits.
pub fn height_sum(values: &Vec<u64>) -> (sum: u128)
    ensures
        sum == total(values@),
{
    let mut sum: u128 = 0;
    let mut i: usize = 0;
    while i < values.len()
        invariant
            i <= values.len(),
            sum == total(values@.take(i as int)),
            sum <= i * 0xffff_ffff_ffff_ffff,
        decreases values.len() - i,
    {
        proof {
            assert(values@.take(i + 1).drop_last() == values@.take(i as int));
            assert((i + 1) * 0xffff_ffff_ffff_ffff <= 0xffff_ffff_ffff_ffff
                * 0xffff_ffff_ffff_ffff) by (nonlinear_arith)
                requires
                    i + 1 <= 0xffff_ffff_ffff_ffff,
            ;
        }
        sum = sum + values[i] as u128;
        i += 1;
    }
    proof {
        assert(values@.take(values.len() as int) == values@);
    }
    sum
}

/// Sum of the squared heights.
pub fn square_sum(values: &Vec<u64>) -> (sum: u128)
    requires
        values.len() * tallest(values@) <= u64::MAX,
    ensures
        sum == square_total(values@),
        values.len() * sum <= u128::MAX,
{
    let ghost top = tallest(values@);
    let ghost n = values.len() as int;
    proof {
        super::surface::lemma_tallest_attained(values@);
        assert forall|c: int| 0 <= c < values@.len() implies #[trigger] values@[c] <= top by {
            lemma_tallest_bounds(values@, c);
        }
        lemma_totals_bounded(values@, top);
        assert(n * (n * top * top) <= 0xffff_ffff_ffff_ffff * 0xffff_ffff_ffff_ffff)
            by (nonlinear_arith)
            requires
                0 <= n,
                0 <= top,
                n * top <= 0xffff_ffff_ffff_ffff,
        ;
        assert(n * square_total(values@) <= n * (n * top * top)) by (nonlinear_arith)
            requires
                0 <= n,
                square_total(values@) <= n * top * top,
        ;
    }
    let mut sum: u128 = 0;
    let mut i: usize = 0;
    while i < values.len()
        invariant
            i <= values.len(),
            n == values.len(),
            0 <= top <= u64::MAX,
            n * top <= u64::MAX,
            forall|c: int| 0 <= c < values@.len() ==> #[trigger] values@[c] <= top,
            sum == square_total(values@.take(i as int)),
        decreases values.len() - i,
    {
        let h: u128 = values[i] as u128;
        proof {
            let next = values@.take(i + 1);
            assert(next.drop_last() == values@.take(i as int));
            assert forall|c: int| 0 <= c < next.len() implies #[trigger] next[c] <= top by {
                assert(next[c] == values@[c]);
            }
            lemma_totals_bounded(next, top);
            assert((i + 1) * top * top <= 0xffff_ffff_ffff_ffff * 0xffff_ffff_ffff_ffff)
                by (nonlinear_arith)
                requires
                    0 <= i + 1 <= n,
                    0 <= top <= 0xffff_ffff_ffff_ffff,
                    n * top <= 0xffff_ffff_ffff_ffff,
            ;
            assert(0 <= h * h <= 0xffff_ffff_ffff_ffff * 0xffff_ffff_ffff_ffff)
                by (nonlinear_arith)
                requires
                    0 <= h <= 0xffff_ffff_ffff_ffff,
            ;
            lemma_totals_bounded(values@.take(i as int), top);
        }
        sum = sum + h * h;
        i += 1;
    }
    proof {
        assert(values@.take(values.len() as int) == values@);
    }
    sum
}

/// The arithmetic mean of the heights, as the fraction `sum / count`.
/// There is none for an empty array.
pub fn mean(values: &Vec<u64>) -> (r: Option<Fraction>)
    ensures
        r is None <==> values.len() == 0,
        r matches Some(f) ==> f.numerator == total(values@) && f.denominator == values.len(),
{
    if values.len() == 0 {
        None
    } else {
        Some(Fraction { numerator: height_sum(values), denominator: values.len() as u128 })
    }
}

/// The population variance of the heights (divided by the count, not by the
/// count less one), as the fraction
/// `(count * sum(h^2) - sum(h)^2) / count^2`. There is none for an empty
/// array. The interface width is its square root.
pub fn variance(values: &Vec<u64>) -> (r: Option<Fraction>)
    requires
        values.len() * tallest(values@) <= u64::MAX,
    ensures
        r is None <==> values.len() == 0,
        r matches Some(f) ==> f.numerator == spread(values@) && f.denominator == values.len()
            * values.len(),
{
    if values.len() == 0 {
        return None;
    }
    let count: u128 = values.len() as u128;
    let sum: u128 = height_sum(values);
    let squares: u128 = square_sum(values);
    proof {
        let top = tallest(values@);
        super::surface::lemma_tallest_attained(values@);
        assert forall|c: int| 0 <= c < values@.len() implies #[trigger] values@[c] <= top by {
            lemma_tallest_bounds(values@, c);
        }
        lemma_totals_bounded(values@, top);
        lemma_spread_nonnegative(values@);
        assert(sum * sum <= 0xffff_ffff_ffff_ffff * 0xffff_ffff_ffff_ffff) by (nonlinear_arith)
            requires
                0 <= sum <= 0xffff_ffff_ffff_ffff,
        ;
        assert(count * count <= 0xffff_ffff_ffff_ffff * 0xffff_ffff_ffff_ffff)
            by (nonlinear_arith)
            requires
                0 <= count <= 0xffff_ffff_ffff_ffff,
        ;
    }
    Some(Fraction { numerator: count * squares - sum * sum, denominator: count * count })
}

} // verus!
