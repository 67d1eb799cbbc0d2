//! Mean and population standard deviation of per-tick samples.
use vstd::prelude::*;

use crate::fixed::{div_toward_zero, div_toward_zero_i128};

verus! {

/// Sum of the first `j` samples.
pub open spec fn sum_upto(s: Seq<i64>, j: int) -> int
    decreases j,
{
    if j <= 0 {
        0
    } else {
        sum_upto(s, j - 1) + s[j - 1]
    }
}

/// Sum of all samples.
pub open spec fn sum(s: Seq<i64>) -> int {
    sum_upto(s, s.len() as int)
}

/// `Σ (n·x − S)²` over the first `j` samples, where `n` is the number of
/// samples and `S` their sum: `n³` times the population variance once
/// `j == n`.
pub open spec fn spread_upto(s: Seq<i64>, j: int) -> int
    decreases j,
{
    if j <= 0 {
        0
    } else {
        let t = s.len() * s[j - 1] - sum(s);
        spread_upto(s, j - 1) + t * t
    }
}

/// `n³` times the population variance of the samples.
pub open spec fn spread(s: Seq<i64>) -> int {
    spread_upto(s, s.len() as int)
}

/// Mean of the samples, rounded toward zero.
pub open spec fn mean(s: Seq<i64>) -> int {
    div_toward_zero(sum(s), s.len() as int)
}

/// `d` is the population standard deviation rounded down:
/// `d² ≤ spread / n³ < (d + 1)²`.
pub open spec fn is_deviation(s: Seq<i64>, d: int) -> bool {
    let n3 = s.len() * s.len() * s.len();
    &&& d >= 0
    &&& d * d * n3 <= spread(s)
    &&& spread(s) < (d + 1) * (d + 1) * n3
}

/// Integer square root, rounded down.
pub fn isqrt(x: u128) -> (r: u64)
    ensures
        r * r <= x,
        x < (r + 1) * (r + 1),
{
    let mut lo: u128 = 0;
    let mut hi: u128 = 0x1_0000_0000_0000_0000;
    assert(x < hi * hi) by (nonlinear_arith)
        requires
            hi == 0x1_0000_0000_0000_0000,
            x <= u128::MAX,
    ;
    while hi - lo > 1
        invariant
            lo < hi <= 0x1_0000_0000_0000_0000,
            lo * lo <= x,
            x < hi * hi,
        decreases hi - lo,
    {
        let mid = lo + (hi - lo) / 2;
        assert(mid * mid < 0x1_0000_0000_0000_0000 * 0x1_0000_0000_0000_0000) by (nonlinear_arith)
            requires
                mid < 0x1_0000_0000_0000_0000,
        ;
        if mid * mid <= x {
            lo = mid;
        } else {
            hi = mid;
        }
    }
    assert(hi == lo + 1);
    lo as u64
}

/// Each sum of the first `j` samples stays within `j` times the `i64` range.
proof fn lemma_sum_bound(s: Seq<i64>, j: int)
    requires
        0 <= j <= s.len(),
    ensures
        j * i64::MIN <= sum_upto(s, j) <= j * i64::MAX,
    decreases j,
{
    if j > 0 {
        lemma_sum_bound(s, j - 1);
    }
}

/// The partial spreads are non-negative.
proof fn lemma_spread_nonnegative(s: Seq<i64>, j: int)
    requires
        0 <= j <= s.len(),
    ensures
        0 <= spread_upto(s, j),
    decreases j,
{
    if j > 0 {
        lemma_spread_nonnegative(s, j - 1);
        let t = s.len() * s[j - 1] - sum(s);
        assert(t * t >= 0) by (nonlinear_arith);
    }
}

/// The partial spreads grow with `j`.
proof fn lemma_spread_monotone(s: Seq<i64>, j: int, k: int)
    requires
        0 <= j <= k <= s.len(),
    ensures
        0 <= spread_upto(s, j) <= spread_upto(s, k),
    decreases k - j,
{
    lemma_spread_nonnegative(s, j);
    if j < k {
        lemma_spread_monotone(s, j, k - 1);
        let t = s.len() * s[k - 1] - sum(s);
        assert(t * t >= 0) by (nonlinear_arith);
    }
}

/// Mean and population standard deviation (rounded down) of the samples;
/// both are zero when there are none.
pub fn variable_summary_stats(data: &Vec<i64>) -> (r: (i64, u64))
    requires
        spread(data@) <= i128::MAX,
    ensures
        data@.len() == 0 ==> r == (0i64, 0u64),
        data@.len() > 0 ==> r.0 == mean(data@) && is_deviation(data@, r.1 as int),
{
    let ghost s = data@;
    let n = data.len();
    if n == 0 {
        return (0, 0);
    }
    assert(n <= 0xffff_ffff_ffff_ffff);
    let mut total: i128 = 0;
    let mut i: usize = 0;
    while i < n
        invariant
            n == s.len(),
            s == data@,
            0 <= i <= n,
            total == sum_upto(s, i as int),
        decreases n - i,
    {
        proof {
            lemma_sum_bound(s, i + 1);
            assert((i + 1) * i64::MIN >= 0xffff_ffff_ffff_ffff * i64::MIN) by (nonlinear_arith)
                requires
                    i + 1 <= 0xffff_ffff_ffff_ffff,
            ;
            assert((i + 1) * i64::MAX <= 0xffff_ffff_ffff_ffff * i64::MAX) by (nonlinear_arith)
                requires
                    i + 1 <= 0xffff_ffff_ffff_ffff,
            ;
        }
        total = total + data[i] as i128;
        i = i + 1;
    }
    proof {
        lemma_sum_bound(s, n as int);
        assert(n * i64::MIN >= 0xffff_ffff_ffff_ffff * i64::MIN) by (nonlinear_arith)
            requires
                n <= 0xffff_ffff_ffff_ffff,
        ;
    }
    let count = n as i128;
    let mean_value = div_toward_zero_i128(total, count);
    proof {
        let t = total as int;
        let c = count as int;
        assert(c * i64::MIN <= t <= c * i64::MAX);
        if t >= 0 {
            assert(t / c <= i64::MAX) by (nonlinear_arith)
                requires
                    0 <= t <= c * i64::MAX,
                    c > 0,
            ;
        } else {
            assert((-t) / c <= 0x8000_0000_0000_0000) by (nonlinear_arith)
                requires
                    0 < -t <= c * 0x8000_0000_0000_0000,
                    c > 0,
            ;
        }
    }
    let mut acc: i128 = 0;
    let mut j: usize = 0;
    while j < n
        invariant
            n == s.len(),
            s == data@,
            count == n,
            total == sum(s),
            0 <= j <= n,
            acc == spread_upto(s, j as int),
            spread(s) <= i128::MAX,
            n * i64::MIN <= total <= n * i64::MAX,
        decreases n - j,
    {
        proof {
            lemma_spread_monotone(s, j + 1, n as int);
        }
        let x = data[j] as i128;
        proof {
            assert(-0x7fff_ffff_ffff_ffff_8000_0000_0000_0000 <= count * x <= 0x7fff_ffff_ffff_ffff_0000_0000_0000_0001)
                by (nonlinear_arith)
                requires
                    0 < count <= 0xffff_ffff_ffff_ffff,
                    i64::MIN <= x <= i64::MAX,
            ;
        }
        let scaled = count * x;
        let ghost t = scaled - total;
        proof {
            lemma_spread_nonnegative(s, j as int);
            assert(spread_upto(s, j + 1) == acc + t * t);
            assert(t * t <= i128::MAX);
            assert(-0x1_0000_0000_0000_0000 < t < 0x1_0000_0000_0000_0000) by (nonlinear_arith)
                requires
                    t * t <= i128::MAX,
            ;
        }
        let term = scaled - total;
        acc = acc + term * term;
        j = j + 1;
    }
    proof {
        lemma_spread_nonnegative(s, n as int);
        assert(n * n <= 0xffff_ffff_ffff_ffff * 0xffff_ffff_ffff_ffff) by (nonlinear_arith)
            requires
                0 < n <= 0xffff_ffff_ffff_ffff,
        ;
        assert(n * n > 0) by (nonlinear_arith)
            requires
                0 < n,
        ;
    }
    let n_sq = (n as u128) * (n as u128);
    let variance: u128 = match n_sq.checked_mul(n as u128) {
        Some(n3) => {
            assert(n3 > 0) by (nonlinear_arith)
                requires
                    n3 == n_sq * n,
                    n_sq > 0,
                    n > 0,
            ;
            acc as u128 / n3
        },
        None => 0,
    };
    let dev = isqrt(variance);
    proof {
        let n3: int = n * n * n;
        let a: int = acc as int;
        assert(n3 > 0) by (nonlinear_arith)
            requires
                n > 0,
                n3 == n * n * n,
        ;
        lemma_spread_monotone(s, 0, n as int);
        assert(variance == a / n3) by {
            if n3 > u128::MAX {
                assert(a < n3);
                assert(a / n3 == 0) by (nonlinear_arith)
                    requires
                        0 <= a < n3,
                ;
            }
        }
        let d = dev as int;
        assert(d * d * n3 <= a) by (nonlinear_arith)
            requires
                d * d <= a / n3,
                n3 > 0,
                a >= 0,
        ;
        assert(a < (d + 1) * (d + 1) * n3) by (nonlinear_arith)
            requires
                a / n3 < (d + 1) * (d + 1),
                n3 > 0,
                a >= 0,
        ;
    }
    (mean_value as i64, dev)
}

/// Whether the samples' spread fits in 128 bits, as the summary needs.
pub fn summary_fits(data: &Vec<i64>) -> (r: bool)
    ensures
        r == (spread(data@) <= i128::MAX),
{
    let ghost s = data@;
    let n = data.len();
    assert(n <= 0xffff_ffff_ffff_ffff);
    let mut total: i128 = 0;
    let mut i: usize = 0;
    while i < n
        invariant
            n == s.len(),
            s == data@,
            0 <= i <= n,
            total == sum_upto(s, i as int),
        decreases n - i,
    {
        proof {
            lemma_sum_bound(s, i + 1);
            assert((i + 1) * i64::MIN >= 0xffff_ffff_ffff_ffff * i64::MIN) by (nonlinear_arith)
                requires
                    i + 1 <= 0xffff_ffff_ffff_ffff,
            ;
            assert((i + 1) * i64::MAX <= 0xffff_ffff_ffff_ffff * i64::MAX) by (nonlinear_arith)
                requires
                    i + 1 <= 0xffff_ffff_ffff_ffff,
            ;
        }
        total = total + data[i] as i128;
        i = i + 1;
    }
    let count = n as i128;
    let mut acc: i128 = 0;
    let mut j: usize = 0;
    while j < n
        invariant
            n == s.len(),
            s == data@,
            count == n,
            n <= 0xffff_ffff_ffff_ffff,
            total == sum(s),
            0 <= j <= n,
            acc == spread_upto(s, j as int),
        decreases n - j,
    {
        proof {
            lemma_spread_nonnegative(s, j as int);
            lemma_spread_monotone(s, j + 1, n as int);
        }
        let x = data[j] as i128;
        proof {
            assert(-0x7fff_ffff_ffff_ffff_8000_0000_0000_0000 <= count * x <= 0x7fff_ffff_ffff_ffff_0000_0000_0000_0001)
                by (nonlinear_arith)
                requires
                    0 <= count <= 0xffff_ffff_ffff_ffff,
                    i64::MIN <= x <= i64::MAX,
            ;
        }
        let ghost t = count * x - total;
        assert(spread_upto(s, j + 1) == acc + t * t);
        let term = match (count * x).checked_sub(total) {
            Some(term) => term,
            None => {
                proof {
                    assert(t * t > i128::MAX) by (nonlinear_arith)
                        requires
                            t > i128::MAX || t < i128::MIN,
                    ;
                }
                return false;
            },
        };
        let square = match term.checked_mul(term) {
            Some(square) => square,
            None => {
                return false;
            },
        };
        proof {
            assert(square >= 0) by (nonlinear_arith)
                requires
                    square == term * term,
            ;
        }
        acc = match acc.checked_add(square) {
            Some(next) => next,
            None => {
                return false;
            },
        };
        j = j + 1;
    }
    true
}

} // verus!
