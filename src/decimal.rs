//! Fixed-point decimal numbers, as the market-data provider writes them.
use vstd::prelude::*;

verus! {

/// Number of decimal places kept by a fixed-point price.
pub const PRICE_DECIMALS: usize = 6;

/// One whole unit of a fixed-point price.
pub const PRICE_SCALE: u64 = 1_000_000;

/// Longest integer part accepted, so that every value fits in a `u64`.
pub const MAX_INTEGER_DIGITS: usize = 12;

pub open spec fn is_digit(c: char) -> bool {
    '0' <= c && c <= '9'
}

pub open spec fn digit_value(c: char) -> int {
    c as int - '0' as int
}

pub open spec fn all_digits(s: Seq<char>) -> bool {
    forall|i: int| 0 <= i < s.len() ==> is_digit(#[trigger] s[i])
}

/// The number that a string of decimal digits spells.
pub open spec fn digits_value(s: Seq<char>) -> int
    decreases s.len(),
{
    if s.len() == 0 {
        0
    } else {
        digits_value(s.drop_last()) * 10 + digit_value(s.last())
    }
}

pub open spec fn pow10(n: nat) -> int
    decreases n,
{
    if n == 0 {
        1
    } else {
        10 * pow10((n - 1) as nat)
    }
}

/// `s` is a whole number of at most `MAX_INTEGER_DIGITS` digits.
pub open spec fn is_integer_text(s: Seq<char>) -> bool {
    0 < s.len() <= MAX_INTEGER_DIGITS && all_digits(s)
}

/// `s` is `integer '.' fraction` with its point at `k`.
pub open spec fn is_point_at(s: Seq<char>, k: int) -> bool {
    &&& 0 <= k < s.len()
    &&& s[k] == '.'
    &&& is_integer_text(s.take(k))
    &&& 0 < s.len() - k - 1 <= PRICE_DECIMALS
    &&& all_digits(s.skip(k + 1))
}

/// The value, in units of `1 / PRICE_SCALE`, of a decimal text; `None` when
/// the text is not a decimal number of the accepted shape.
pub open spec fn fixed_point_value(s: Seq<char>) -> Option<int> {
    if is_integer_text(s) {
        Some(digits_value(s) * PRICE_SCALE)
    } else if exists|k: int| is_point_at(s, k) {
        let k = choose|k: int| is_point_at(s, k);
        let frac = s.skip(k + 1);
        Some(digits_value(s.take(k)) * PRICE_SCALE + digits_value(frac) * pow10(
            (PRICE_DECIMALS - frac.len()) as nat,
        ))
    } else {
        None
    }
}

proof fn lemma_digits_value_push(s: Seq<char>, i: int)
    requires
        0 <= i < s.len(),
    ensures
        digits_value(s.take(i + 1)) == digits_value(s.take(i)) * 10 + digit_value(s[i]),
{
    assert(s.take(i + 1).drop_last() =~= s.take(i));
}

proof fn lemma_digits_value_push_range(s: Seq<char>, a: int, i: int)
    requires
        0 <= a <= i < s.len(),
    ensures
        digits_value(s.subrange(a, i + 1)) == digits_value(s.subrange(a, i)) * 10
            + digit_value(s[i]),
{
    assert(s.subrange(a, i + 1).drop_last() =~= s.subrange(a, i));
}

/// `10^n`, for the few powers a fixed-point value needs.
fn power_of_ten(n: usize) -> (r: u64)
    requires
        n <= PRICE_DECIMALS,
    ensures
        r == pow10(n as nat),
{
    let mut r: u64 = 1;
    let mut i: usize = 0;
    while i < n
        invariant
            i <= n <= PRICE_DECIMALS,
            r == pow10(i as nat),
            r <= 1_000_000,
        decreases n - i,
    {
        proof {
            assert(pow10((i + 1) as nat) == 10 * pow10(i as nat));
            assert(i + 1 <= 6);
            lemma_pow10_six_bound((i + 1) as nat);
        }
        r = r * 10;
        i = i + 1;
    }
    r
}

proof fn lemma_pow10_six_bound(n: nat)
    requires
        n <= 6,
    ensures
        1 <= pow10(n) <= 1_000_000,
{
    reveal_with_fuel(pow10, 7);
}

/// Reads a decimal text such as `"187.4400"` as a fixed-point value with
/// `PRICE_DECIMALS` places.
pub fn parse_fixed_point(s: &str) -> (r: Option<u64>)
    ensures
        match r {
            Some(v) => fixed_point_value(s@) == Some(v as int),
            None => fixed_point_value(s@) is None,
        },
{
    let n = s.unicode_len();
    let mut i: usize = 0;
    let mut whole: u64 = 0;
    while i < n && s.get_char(i) != '.'
        invariant
            n == s@.len(),
            i <= n,
            i <= MAX_INTEGER_DIGITS,
            all_digits(s@.take(i as int)),
            whole == digits_value(s@.take(i as int)),
            whole < pow10(i as nat),
        decreases n - i,
    {
        let c = s.get_char(i);
        if !('0' <= c && c <= '9') || i >= MAX_INTEGER_DIGITS {
            proof {
                lemma_no_value_after_bad_integer_char(s@, i as int);
            }
            return None;
        }
        proof {
            lemma_digits_value_push(s@, i as int);
            assert(all_digits(s@.take(i + 1))) by {
                assert forall|j: int| 0 <= j < i + 1 implies is_digit(#[trigger] s@.take(i + 1)[j]) by {
                    if j < i {
                        assert(s@.take(i + 1)[j] == s@.take(i as int)[j]);
                    }
                }
            }
            lemma_pow10_twelve((i + 1) as nat);
        }
        whole = whole * 10 + (c as u64 - '0' as u64);
        i = i + 1;
    }
    if i == 0 {
        proof {
            lemma_no_value_empty_integer(s@);
        }
        return None;
    }
    proof {
        lemma_pow10_twelve(i as nat);
    }
    if i == n {
        proof {
            assert(s@.take(i as int) =~= s@);
        }
        return Some(whole * PRICE_SCALE);
    }
    let k = i;
    i = i + 1;
    let mut frac: u64 = 0;
    while i < n
        invariant
            n == s@.len(),
            k < i <= n,
            k <= MAX_INTEGER_DIGITS,
            s@[k as int] == '.',
            all_digits(s@.take(k as int)),
            i - k - 1 <= PRICE_DECIMALS,
            all_digits(s@.subrange(k + 1, i as int)),
            frac == digits_value(s@.subrange(k + 1, i as int)),
            frac < pow10((i - k - 1) as nat),
        decreases n - i,
    {
        let c = s.get_char(i);
        if !('0' <= c && c <= '9') || i - k - 1 >= PRICE_DECIMALS {
            proof {
                lemma_no_point_at_other(s@, k as int);
                assert(!is_point_at(s@, k as int)) by {
                    if is_digit(c) {
                        assert(s@.len() - k - 1 > PRICE_DECIMALS);
                    } else {
                        assert(s@.skip(k + 1)[i - k - 1] == c);
                    }
                }
            }
            return None;
        }
        proof {
            lemma_digits_value_push_range(s@, k + 1, i as int);
            assert(all_digits(s@.subrange(k + 1, i + 1))) by {
                assert forall|j: int| 0 <= j < i - k implies is_digit(
                    #[trigger] s@.subrange(k + 1, i + 1)[j],
                ) by {
                    if j < i - k - 1 {
                        assert(s@.subrange(k + 1, i + 1)[j] == s@.subrange(k + 1, i as int)[j]);
                    }
                }
            }
            lemma_pow10_twelve((i - k) as nat);
        }
        frac = frac * 10 + (c as u64 - '0' as u64);
        i = i + 1;
    }
    proof {
        lemma_no_point_at_other(s@, k as int);
    }
    if i == k + 1 {
        proof {
            assert(!is_point_at(s@, k as int));
        }
        return None;
    }
    let places = i - k - 1;
    let pad = power_of_ten(PRICE_DECIMALS - places);
    proof {
        assert(s@.subrange(k + 1, n as int) =~= s@.skip(k + 1));
        assert(is_point_at(s@, k as int));
        lemma_pow10_six_bound(places as nat);
        lemma_pow10_six_bound((PRICE_DECIMALS - places) as nat);
        lemma_pow10_split(places as nat);
        assert(frac * pad < 1_000_000) by (nonlinear_arith)
            requires
                frac < pow10(places as nat),
                pad == pow10((PRICE_DECIMALS - places) as nat),
                pow10(places as nat) * pow10((PRICE_DECIMALS - places) as nat) == 1_000_000,
                pad >= 1,
        ;
    }
    Some(whole * PRICE_SCALE + frac * pad)
}

proof fn lemma_pow10_twelve(n: nat)
    requires
        n <= 12,
    ensures
        1 <= pow10(n) <= 1_000_000_000_000,
{
    reveal_with_fuel(pow10, 13);
}

proof fn lemma_pow10_split(n: nat)
    requires
        n <= 6,
    ensures
        pow10(n) * pow10((6 - n) as nat) == 1_000_000,
{
    reveal_with_fuel(pow10, 7);
    assert(pow10(0) == 1 && pow10(1) == 10 && pow10(2) == 100 && pow10(3) == 1000);
    assert(pow10(4) == 10_000 && pow10(5) == 100_000 && pow10(6) == 1_000_000);
    if n == 0 {
    } else if n == 1 {
    } else if n == 2 {
    } else if n == 3 {
    } else if n == 4 {
    } else if n == 5 {
    } else {
        assert(n == 6);
    }
}

/// A text that starts with a point, or is empty, has no value.
proof fn lemma_no_value_empty_integer(s: Seq<char>)
    requires
        s.len() == 0 || s[0] == '.',
    ensures
        fixed_point_value(s) is None,
{
    if s.len() > 0 {
        assert(!is_digit(s[0]));
    }
    assert forall|k: int| !is_point_at(s, k) by {
        if is_point_at(s, k) && k > 0 {
            assert(s.take(k)[0] == s[0]);
        }
    }
}

/// Where all of `s[..k]` are digits and `s[k]` is a point, no other point
/// position splits `s`, and `s` is no plain integer.
proof fn lemma_no_point_at_other(s: Seq<char>, k: int)
    requires
        0 <= k < s.len(),
        s[k] == '.',
        all_digits(s.take(k)),
    ensures
        forall|j: int| j != k ==> !is_point_at(s, j),
        !is_integer_text(s),
{
    assert(!is_digit(s[k]));
    assert forall|j: int| j != k implies !is_point_at(s, j) by {
        if is_point_at(s, j) {
            if j < k {
                assert(s.take(k)[j] == s[j]);
            } else {
                assert(s.take(j)[k] == s[k]);
            }
        }
    }
}

/// A bad character (or a too long integer part) before the first point leaves
/// the text without a value.
proof fn lemma_no_value_after_bad_integer_char(s: Seq<char>, i: int)
    requires
        0 <= i < s.len(),
        s[i] != '.',
        all_digits(s.take(i)),
        !is_digit(s[i]) || i >= MAX_INTEGER_DIGITS,
    ensures
        fixed_point_value(s) is None,
{
    if is_integer_text(s) {
        assert(is_digit(s[i]));
    }
    assert forall|k: int| !is_point_at(s, k) by {
        if is_point_at(s, k) {
            if k < i {
                assert(s.take(i)[k] == s[k]);
            } else if k == i {
            } else {
                assert(s.take(k)[i] == s[i]);
                assert(is_digit(s[i]));
                assert(k <= MAX_INTEGER_DIGITS);
            }
        }
    }
}

} // verus!
