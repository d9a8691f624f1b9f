//! Simple returns of a price series and their dispersion.
use vstd::prelude::*;

use crate::error::MarketError;
use crate::series::{PricePoint, PriceSeries};

verus! {

/// One whole unit of a fixed-point return: a return of `RETURN_SCALE` is +100%.
pub const RETURN_SCALE: u128 = 1_000_000_000;

/// Largest return magnitude the volatility estimate accepts (a thousandfold move).
pub const MAX_ABS_RETURN: i128 = 1_000_000_000_000;

/// Longest return series the volatility estimate accepts.
pub const MAX_RETURNS: usize = 1_000_000;

/// The simple return `(cur - prev) / prev` in fixed point, rounded toward zero.
pub open spec fn simple_return(prev: int, cur: int) -> int {
    if cur >= prev {
        (cur - prev) * RETURN_SCALE / prev
    } else {
        -((prev - cur) * RETURN_SCALE / prev)
    }
}

/// The returns between consecutive closes of `s`.
pub open spec fn returns_of(s: Seq<PricePoint>) -> Seq<i128> {
    Seq::new(
        (s.len() - 1) as nat,
        |i: int| simple_return(s[i].close as int, s[i + 1].close as int) as i128,
    )
}

/// Some close other than the last one is zero, so a return divides by zero.
pub open spec fn has_zero_divisor(s: Seq<PricePoint>) -> bool {
    exists|i: int| 0 <= i < s.len() - 1 && #[trigger] s[i].close == 0
}

pub open spec fn sum(s: Seq<i128>) -> int
    decreases s.len(),
{
    if s.len() == 0 {
        0
    } else {
        sum(s.drop_last()) + s.last()
    }
}

pub open spec fn sum_of_squares(s: Seq<i128>) -> int
    decreases s.len(),
{
    if s.len() == 0 {
        0
    } else {
        sum_of_squares(s.drop_last()) + s.last() * s.last()
    }
}

/// `sum over x in s of (k * x - c)^2`.
pub open spec fn scaled_square_deviations(s: Seq<i128>, k: int, c: int) -> int
    decreases s.len(),
{
    if s.len() == 0 {
        0
    } else {
        scaled_square_deviations(s.drop_last(), k, c) + (k * s.last() - c) * (k * s.last() - c)
    }
}

/// `n^3` times the population variance of `s`, where `n` is its length:
/// the squared deviations from the mean, each scaled by `n`, summed.
pub open spec fn dispersion(s: Seq<i128>) -> int {
    scaled_square_deviations(s, s.len() as int, sum(s))
}

/// `v` is the population standard deviation of `s` rounded down: `v^2` is at
/// most the variance and `(v + 1)^2` exceeds it.
pub open spec fn is_volatility_of(s: Seq<i128>, v: int) -> bool {
    let n = s.len() as int;
    &&& 0 <= v
    &&& v * v * (n * n * n) <= dispersion(s)
    &&& dispersion(s) < (v + 1) * (v + 1) * (n * n * n)
}

/// Some return lies beyond `MAX_ABS_RETURN` in magnitude.
pub open spec fn has_extreme_return(s: Seq<i128>) -> bool {
    exists|i: int| 0 <= i < s.len() && (#[trigger] s[i] > MAX_ABS_RETURN || s[i] < -MAX_ABS_RETURN)
}

proof fn lemma_scaled_square_deviations(s: Seq<i128>, k: int, c: int)
    ensures
        scaled_square_deviations(s, k, c) == k * k * sum_of_squares(s) - 2 * k * c * sum(s) + s.len()
            * c * c,
        scaled_square_deviations(s, k, c) >= 0,
    decreases s.len(),
{
    if s.len() > 0 {
        let p = s.drop_last();
        let x = s.last() as int;
        lemma_scaled_square_deviations(p, k, c);
        let a = sum_of_squares(p);
        let b = sum(p);
        let m = p.len() as int;
        assert((k * x - c) * (k * x - c) >= 0) by (nonlinear_arith);
        assert(k * k * a - 2 * k * c * b + m * c * c + (k * x - c) * (k * x - c) == k * k * (a + x
            * x) - 2 * k * c * (b + x) + (m + 1) * c * c) by (nonlinear_arith);
    }
}

proof fn lemma_sums_step(s: Seq<i128>, i: int)
    requires
        0 <= i < s.len(),
    ensures
        sum(s.take(i + 1)) == sum(s.take(i)) + s[i],
        sum_of_squares(s.take(i + 1)) == sum_of_squares(s.take(i)) + s[i] * s[i],
{
    assert(s.take(i + 1).drop_last() =~= s.take(i));
}

proof fn lemma_constant_sums(s: Seq<i128>, c: int)
    requires
        forall|i: int| 0 <= i < s.len() ==> s[i] == c,
    ensures
        sum(s) == s.len() * c,
        sum_of_squares(s) == s.len() * (c * c),
    decreases s.len(),
{
    if s.len() > 0 {
        let p = s.drop_last();
        lemma_constant_sums(p, c);
        assert(s.last() == c);
        assert(sum_of_squares(s) == p.len() * (c * c) + c * c);
        assert(sum(s) == p.len() * c + c);
        assert(p.len() * c + c == s.len() * c) by (nonlinear_arith)
            requires
                s.len() == p.len() + 1,
        ;
        assert(p.len() * (c * c) + c * c == s.len() * (c * c)) by (nonlinear_arith)
            requires
                s.len() == p.len() + 1,
        ;
    }
}

/// Returns that are all equal have no dispersion: their volatility is zero.
pub proof fn lemma_equal_returns_have_zero_volatility(s: Seq<i128>, v: int)
    requires
        s.len() > 0,
        forall|i: int| 0 <= i < s.len() ==> #[trigger] s[i] == s[0],
        is_volatility_of(s, v),
    ensures
        v == 0,
{
    let n = s.len() as int;
    let c = s[0] as int;
    lemma_constant_sums(s, c);
    lemma_scaled_square_deviations(s, n, sum(s));
    assert(dispersion(s) == 0) by (nonlinear_arith)
        requires
            dispersion(s) == n * n * sum_of_squares(s) - 2 * n * sum(s) * sum(s) + n * sum(s)
                * sum(s),
            sum(s) == n * c,
            sum_of_squares(s) == n * (c * c),
    ;
    assert(v * v * (n * n * n) <= 0);
    assert(v == 0) by (nonlinear_arith)
        requires
            v >= 0,
            n > 0,
            v * v * (n * n * n) <= 0,
    ;
}

/// A series of two or more points has exactly one return fewer than points.
pub proof fn lemma_one_return_per_consecutive_pair(s: Seq<PricePoint>)
    requires
        s.len() >= 2,
    ensures
        returns_of(s).len() == s.len() - 1,
        forall|i: int|
            0 <= i < s.len() - 1 ==> #[trigger] returns_of(s)[i] == simple_return(
                s[i].close as int,
                s[i + 1].close as int,
            ) as i128,
{
}

/// The largest `r` with `r * r <= x`.
fn integer_sqrt(x: u128) -> (r: u64)
    requires
        x <= 1_000_000_000_000_000_000_000_000,
    ensures
        r as int * r as int <= x,
        x < (r as int + 1) * (r as int + 1),
{
    let mut lo: u128 = 0;
    let mut hi: u128 = 1_000_000_000_001;
    assert(hi * hi > x) by (nonlinear_arith)
        requires
            hi == 1_000_000_000_001,
            x <= 1_000_000_000_000_000_000_000_000,
    ;
    while hi - lo > 1
        invariant
            lo < hi <= 1_000_000_000_001,
            lo * lo <= x,
            x < hi * hi,
        decreases hi - lo,
    {
        let mid = lo + (hi - lo) / 2;
        assert(mid * mid <= 1_000_000_000_001 * 1_000_000_000_001) by (nonlinear_arith)
            requires
                mid <= 1_000_000_000_001,
        ;
        if mid * mid <= x {
            lo = mid;
        } else {
            hi = mid;
        }
    }
    lo as u64
}

/// The simple return between two closes, `prev` being non-zero.
fn return_between(prev: u64, cur: u64) -> (r: i128)
    requires
        prev > 0,
    ensures
        r == simple_return(prev as int, cur as int),
{
    proof {
        assert((u64::MAX as int) * RETURN_SCALE < u128::MAX);
    }
    if cur >= prev {
        let d = (cur - prev) as u128;
        assert(d * RETURN_SCALE <= (u64::MAX as int) * RETURN_SCALE) by (nonlinear_arith)
            requires
                d <= u64::MAX,
        ;
        let q = d * RETURN_SCALE / (prev as u128);
        assert(q <= d * RETURN_SCALE) by (nonlinear_arith)
            requires
                q == d * RETURN_SCALE / (prev as int),
                prev >= 1,
        ;
        q as i128
    } else {
        let d = (prev - cur) as u128;
        assert(d * RETURN_SCALE <= (u64::MAX as int) * RETURN_SCALE) by (nonlinear_arith)
            requires
                d <= u64::MAX,
        ;
        let q = d * RETURN_SCALE / (prev as u128);
        assert(q <= d * RETURN_SCALE) by (nonlinear_arith)
            requires
                q == d * RETURN_SCALE / (prev as int),
                prev >= 1,
        ;
        -(q as i128)
    }
}

/// The returns between consecutive closes, oldest first. Fails with
/// `InsufficientData` on fewer than two points, and with `Domain` when a
/// close that a return divides by is zero.
pub fn compute_returns(series: &PriceSeries) -> (r: Result<Vec<i128>, MarketError>)
    ensures
        r is Ok <==> series@.len() >= 2 && !has_zero_divisor(series@),
        match r {
            Ok(v) => v@ == returns_of(series@) && v@.len() == series@.len() - 1,
            Err(e) => e == if series@.len() < 2 {
                MarketError::InsufficientData
            } else {
                MarketError::Domain
            },
        },
{
    let points = series.points();
    let n = points.len();
    if n < 2 {
        return Err(MarketError::InsufficientData);
    }
    let mut out: Vec<i128> = Vec::new();
    let mut i: usize = 1;
    while i < n
        invariant
            points@ == series@,
            n == points@.len(),
            1 <= i <= n,
            out@.len() == i - 1,
            forall|j: int| 0 <= j < i - 1 ==> points@[j].close != 0,
            forall|j: int|
                0 <= j < out@.len() ==> #[trigger] out@[j] == returns_of(series@)[j],
        decreases n - i,
    {
        let prev = points[i - 1].close;
        let cur = points[i].close;
        if prev == 0 {
            return Err(MarketError::Domain);
        }
        let x = return_between(prev, cur);
        out.push(x);
        i = i + 1;
    }
    proof {
        assert(out@ =~= returns_of(series@));
    }
    Ok(out)
}

/// The population standard deviation of a return series, in the fixed point
/// of the returns, rounded down. Fails with `InsufficientData` on fewer than
/// two returns, and with `Overflow` on more than `MAX_RETURNS` returns or on
/// a return beyond `MAX_ABS_RETURN` in magnitude.
pub fn estimate(rets: &Vec<i128>) -> (r: Result<u64, MarketError>)
    ensures
        r is Ok <==> 2 <= rets@.len() <= MAX_RETURNS && !has_extreme_return(rets@),
        match r {
            Ok(v) => is_volatility_of(rets@, v as int),
            Err(e) => e == if rets@.len() < 2 {
                MarketError::InsufficientData
            } else {
                MarketError::Overflow
            },
        },
{
    let n = rets.len();
    if n < 2 {
        return Err(MarketError::InsufficientData);
    }
    if n > MAX_RETURNS {
        return Err(MarketError::Overflow);
    }
    let mut s1: i128 = 0;
    let mut s2: i128 = 0;
    let mut i: usize = 0;
    while i < n
        invariant
            n == rets@.len(),
            2 <= n <= MAX_RETURNS,
            i <= n,
            forall|j: int| 0 <= j < i ==> -MAX_ABS_RETURN <= #[trigger] rets@[j] <= MAX_ABS_RETURN,
            s1 == sum(rets@.take(i as int)),
            s2 == sum_of_squares(rets@.take(i as int)),
            -(i as int) * 1_000_000_000_000 <= s1 <= i * 1_000_000_000_000,
            0 <= s2 <= i * 1_000_000_000_000_000_000_000_000,
        decreases n - i,
    {
        let x = rets[i];
        if x > MAX_ABS_RETURN || x < -MAX_ABS_RETURN {
            proof {
                assert(has_extreme_return(rets@));
            }
            return Err(MarketError::Overflow);
        }
        proof {
            lemma_sums_step(rets@, i as int);
            assert(0 <= x * x <= 1_000_000_000_000_000_000_000_000) by (nonlinear_arith)
                requires
                    -1_000_000_000_000 <= x <= 1_000_000_000_000,
            ;
            assert(s2 + x * x <= (i + 1) * 1_000_000_000_000_000_000_000_000);
            assert((i + 1) * 1_000_000_000_000_000_000_000_000 <= 1_000_000_000_000_000_000_000_000_000_000);
        }
        s1 = s1 + x;
        s2 = s2 + x * x;
        i = i + 1;
    }
    proof {
        assert(rets@.take(n as int) =~= rets@);
        assert(!has_extreme_return(rets@));
    }
    let nn = n as i128;
    let ghost m = nn * s2 - s1 * s1;
    proof {
        lemma_scaled_square_deviations(rets@, n as int, s1 as int);
        assert(dispersion(rets@) == n * m) by (nonlinear_arith)
            requires
                dispersion(rets@) == n * n * s2 - 2 * n * s1 * s1 + n * s1 * s1,
                m == n * s2 - s1 * s1,
        ;
        assert(m >= 0) by (nonlinear_arith)
            requires
                n * m >= 0,
                n >= 2,
        ;
        assert(0 <= nn * s2 <= 1_000_000 * (1_000_000 * 1_000_000_000_000_000_000_000_000)) by (nonlinear_arith)
            requires
                0 <= s2 <= nn * 1_000_000_000_000_000_000_000_000,
                2 <= nn <= 1_000_000,
        ;
        assert(0 <= s1 * s1 <= 1_000_000_000_000_000_000 * 1_000_000_000_000_000_000) by (nonlinear_arith)
            requires
                -1_000_000_000_000_000_000 <= s1 <= 1_000_000_000_000_000_000,
        ;
        assert(s1 * s1 <= nn * s2) by (nonlinear_arith)
            requires
                m == nn * s2 - s1 * s1,
                m >= 0,
        ;
    }
    let spread = (nn * s2 - s1 * s1) as u128;
    assert(1 <= (n as u128) * (n as u128) <= 1_000_000_000_000) by (nonlinear_arith)
        requires
            2 <= n <= 1_000_000,
    ;
    let n2 = (n as u128) * (n as u128);
    let var = spread / n2;
    proof {
        assert(nn * s2 <= nn * (nn * 1_000_000_000_000_000_000_000_000)) by (nonlinear_arith)
            requires
                0 <= s2 <= nn * 1_000_000_000_000_000_000_000_000,
                nn >= 0,
        ;
        assert(var <= 1_000_000_000_000_000_000_000_000) by (nonlinear_arith)
            requires
                var == spread / n2,
                spread <= nn * (nn * 1_000_000_000_000_000_000_000_000),
                n2 == nn * nn,
                nn >= 2,
        ;
    }
    let v = integer_sqrt(var);
    proof {
        let vi = v as int;
        assert(vi * vi * (n2 as int) <= spread) by (nonlinear_arith)
            requires
                vi * vi <= var,
                var == spread / n2,
                n2 > 0,
        ;
        assert(spread < (vi + 1) * (vi + 1) * (n2 as int)) by (nonlinear_arith)
            requires
                var < (vi + 1) * (vi + 1),
                var == spread / n2,
                n2 > 0,
        ;
        assert(vi * vi * (n * n * n) <= dispersion(rets@)) by (nonlinear_arith)
            requires
                vi * vi * (n2 as int) <= m,
                n2 == n * n,
                dispersion(rets@) == n * m,
                n > 0,
        ;
        assert(dispersion(rets@) < (vi + 1) * (vi + 1) * (n * n * n)) by (nonlinear_arith)
            requires
                m < (vi + 1) * (vi + 1) * (n2 as int),
                n2 == n * n,
                dispersion(rets@) == n * m,
                n > 0,
        ;
    }
    Ok(v)
}

/// The historical volatility of a series: the population standard deviation
/// of its simple returns. Fails with `InsufficientData` on fewer than two
/// points, then with `Domain` on a zero close that a return divides by, then
/// with `InsufficientData` on fewer than three points (two returns), and with
/// `Overflow` where `estimate` does.
pub fn historical_volatility(series: &PriceSeries) -> (r: Result<u64, MarketError>)
    ensures
        r is Ok <==> 3 <= series@.len() <= MAX_RETURNS + 1 && !has_zero_divisor(series@)
            && !has_extreme_return(returns_of(series@)),
        match r {
            Ok(v) => is_volatility_of(returns_of(series@), v as int),
            Err(e) => e == if series@.len() < 2 {
                MarketError::InsufficientData
            } else if has_zero_divisor(series@) {
                MarketError::Domain
            } else if series@.len() < 3 {
                MarketError::InsufficientData
            } else {
                MarketError::Overflow
            },
        },
{
    let rets = match compute_returns(series) {
        Ok(v) => v,
        Err(e) => return Err(e),
    };
    estimate(&rets)
}

} // verus!
